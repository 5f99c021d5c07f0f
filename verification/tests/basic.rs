use json_parser::json_value::{JsonValue, Text};
use json_parser::parse_json;

#[test]
fn just_one_string() {
    let input = br##"{"a_string":"Hello world!"}"##;

    let expected = JsonValue::Object(vec![
        (
            Text::Borrowed(b"a_string"),
            JsonValue::String(Text::Borrowed(b"Hello world!")),
        ),
    ]);

    assert_eq!(parse_json(input).unwrap(), expected);
}

#[test]
fn just_one_string_beautified() {
    let input = br##"{
    "a_string": "Hello world!"
}}"##;

    let expected = JsonValue::Object(vec![
        (
            Text::Borrowed(b"a_string"),
            JsonValue::String(Text::Borrowed(b"Hello world!")),
        ),
    ]);

    assert_eq!(parse_json(input).unwrap(), expected);
}

#[test]
fn null() {
    let input = br##"{
    "a_null_property": null
}}"##;

    let expected = JsonValue::Object(vec![
        (Text::Borrowed(b"a_null_property"), JsonValue::Null),
    ]);

    assert_eq!(parse_json(input).unwrap(), expected);
}
