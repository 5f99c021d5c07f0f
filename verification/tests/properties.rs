use json_parser::json_value::{JsonValue, Text};
use json_parser::parse_error::ParseErrorKind;
use json_parser::parse_json;

#[test]
fn parse_is_deterministic() {
    let input = br##"{"a":[1,true,"x"],"b":{"c":null}}"##;

    let first = parse_json(input).unwrap();
    let second = parse_json(input).unwrap();

    assert_eq!(first, second);
}

#[test]
fn plain_string_is_zero_copy() {
    let input = br##"{"k":"plain"}"##;

    let parsed = parse_json(input).unwrap();
    let pairs = match parsed {
        JsonValue::Object(pairs) => pairs,
        _ => panic!("expected an object"),
    };
    let value = &pairs[0].1;
    match value {
        JsonValue::String(Text::Borrowed(s)) => {
            assert_eq!(*s, b"plain".as_slice());
            // The borrowed view points at the source substring itself.
            assert!(std::ptr::eq(*s, &input[6..11]));
        },
        _ => panic!("expected a borrowed string"),
    }
}

#[test]
fn escaped_string_is_owned() {
    let input = br##"{"k":"a\nb"}"##;

    let parsed = parse_json(input).unwrap();
    let pairs = match parsed {
        JsonValue::Object(pairs) => pairs,
        _ => panic!("expected an object"),
    };
    match &pairs[0].1 {
        JsonValue::String(Text::Owned(v)) => {
            assert_eq!(v.as_slice(), b"a\nb".as_slice());
        },
        _ => panic!("expected an owned string"),
    }
}

#[test]
fn duplicate_key_last_wins() {
    let input = br##"{"a":1,"a":2}"##;

    let expected = JsonValue::Object(vec![
        (Text::Borrowed(b"a"), JsonValue::Number(b"2")),
    ]);

    assert_eq!(parse_json(input).unwrap(), expected);
}

#[test]
fn number_round_trip() {
    let cases: Vec<(&[u8], f64)> = vec![
        (b"17", 17.0),
        (b"3.14", 3.14),
        (b"-101654.79", -101654.79),
    ];
    for (input, expected) in cases {
        let parsed = parse_json(input).unwrap();
        match parsed {
            JsonValue::Number(raw) => {
                let value: f64 = std::str::from_utf8(raw).unwrap().parse().unwrap();
                assert_eq!(value, expected);
            },
            _ => panic!("expected a number"),
        }
    }
}

#[test]
fn trailing_comma_object() {
    let input = br##"{"a":1,}"##;

    let expected = JsonValue::Object(vec![
        (Text::Borrowed(b"a"), JsonValue::Number(b"1")),
    ]);

    assert_eq!(parse_json(input).unwrap(), expected);
}

#[test]
fn trailing_comma_array() {
    let input = br##"[1,2,]"##;

    let expected = JsonValue::Array(vec![
        JsonValue::Number(b"1"),
        JsonValue::Number(b"2"),
    ]);

    assert_eq!(parse_json(input).unwrap(), expected);
}

#[test]
fn double_comma_rejected() {
    let input = br##"{"a":1,,"b":2}"##;

    let err = parse_json(input).unwrap_err();
    match &err.kind {
        ParseErrorKind::UnexpectedCharacter(found, expected) => {
            assert_eq!(*found, b',');
            assert_eq!(expected.as_slice(), b"\"".as_slice());
        },
        _ => panic!("expected an unexpected-character error"),
    }
}

#[test]
fn nested_structures() {
    let input = br##"{"o":{"p":"v"}}"##;

    let expected = JsonValue::Object(vec![
        (
            Text::Borrowed(b"o".as_slice()),
            JsonValue::Object(vec![
                (
                    Text::Borrowed(b"p".as_slice()),
                    JsonValue::String(Text::Borrowed(b"v")),
                ),
            ]),
        ),
    ]);

    assert_eq!(parse_json(input).unwrap(), expected);
}

#[test]
fn unicode_pass_through() {
    let input = r##"{"k":"שלום привет"}"##;

    let parsed = parse_json(input.as_bytes()).unwrap();
    let pairs = match parsed {
        JsonValue::Object(pairs) => pairs,
        _ => panic!("expected an object"),
    };
    match &pairs[0].1 {
        JsonValue::String(t) => {
            assert_eq!(t.as_bytes(), "שלום привет".as_bytes());
        },
        _ => panic!("expected a string"),
    }
}

#[test]
fn literal_null() {
    let input = br##"{"n":null}"##;

    let expected = JsonValue::Object(vec![
        (Text::Borrowed(b"n"), JsonValue::Null),
    ]);

    assert_eq!(parse_json(input).unwrap(), expected);
}

#[test]
fn literal_bools() {
    let input = br##"[true,false]"##;

    let expected = JsonValue::Array(vec![
        JsonValue::Boolean(true),
        JsonValue::Boolean(false),
    ]);

    assert_eq!(parse_json(input).unwrap(), expected);
}

#[test]
fn unterminated_string_is_end_of_input() {
    let input = br##"{"a":"b"##;

    let err = parse_json(input).unwrap_err();
    assert!(matches!(err.kind, ParseErrorKind::UnexpectedEndOfInput));
    assert_eq!(err.ctx.line, 1);
    assert_eq!(err.ctx.column, 8);
}

#[test]
fn equality_ignores_representation() {
    let borrowed = JsonValue::String(Text::Borrowed(b"a\nb"));
    let owned = JsonValue::String(Text::Owned(b"a\nb".to_vec()));

    assert_eq!(borrowed, owned);
    assert_ne!(
        JsonValue::String(Text::Borrowed(b"a")),
        JsonValue::String(Text::Borrowed(b"b")),
    );
}
