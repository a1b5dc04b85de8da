use json_parser::{
    convert_to_format, edit_json, parse_json, parse_partial_json, serialize_json,
    validate_json_schema, ConversionError, EditError, JsonValue, ParseErrorKind, ParserError,
    ValidationError,
};

fn number(n: u64) -> JsonValue {
    JsonValue::Number(serde_json::Number::from(n))
}

fn text(s: &str) -> JsonValue {
    JsonValue::String(s.to_string())
}

fn object(members: Vec<(&str, JsonValue)>) -> JsonValue {
    JsonValue::Object(members.into_iter().map(|(k, v)| (k.to_string(), v)).collect())
}

fn john() -> JsonValue {
    object(vec![("name", text("John")), ("age", number(30))])
}

#[test]
fn test_parse_simple_json() {
    let json_data = r#"{ "name": "John", "age": 30, "city": "New York" }"#;
    assert!(parse_json(json_data).is_ok());
}

#[test]
fn test_validate_json_schema() {
    let json_data = john();
    let schema = object(vec![("name", text("")), ("age", number(0))]);
    let result = validate_json_schema(&json_data, &schema);
    assert!(result.is_ok());
}

#[test]
fn test_parse_partial_json() {
    let json_data = object(vec![("name", text("John")), ("age", number(30)), ("city", text("New York"))]);
    let result = parse_partial_json(&json_data, "city");
    assert_eq!(result, Some(text("New York")));
}

#[test]
fn test_edit_json() {
    let mut json_data = john();
    let result = edit_json(&mut json_data, "age", number(35));
    assert!(result.is_ok());
    assert_eq!(parse_partial_json(&json_data, "age"), Some(number(35)));
}

#[test]
fn test_convert_to_yaml() {
    let json_data = john();
    let result = convert_to_format(&json_data, "yaml");
    assert!(result.is_ok());
    assert!(result.unwrap().contains("name: John"));
}

#[test]
fn parse_builds_the_tree_in_document_order() {
    let parsed = parse_json(r#"{ "name": "John", "age": 30, "tags": [true, null, "x"] }"#).unwrap();
    let expected = object(vec![
        ("name", text("John")),
        ("age", number(30)),
        ("tags", JsonValue::Array(vec![JsonValue::Boolean(true), JsonValue::Null, text("x")])),
    ]);
    assert_eq!(parsed, expected);
}

#[test]
fn parse_keeps_integers_and_fractions_apart() {
    let parsed = parse_json("[1, -2, 1.5]").unwrap();
    let expected = JsonValue::Array(vec![
        number(1),
        JsonValue::Number(serde_json::Number::from(-2i64)),
        JsonValue::Number(serde_json::Number::from_f64(1.5).unwrap()),
    ]);
    assert_eq!(parsed, expected);
    assert_ne!(parse_json("1").unwrap(), parse_json("1.0").unwrap());
}

#[test]
fn parse_decodes_escapes() {
    assert_eq!(parse_json(r#""a\nA\"""#).unwrap(), text("a\nA\""));
}

#[test]
fn parse_keeps_one_member_for_a_repeated_key() {
    let parsed = parse_json(r#"{"a": 1, "b": 2, "a": 3}"#).unwrap();
    assert_eq!(parsed, object(vec![("a", number(3)), ("b", number(2))]));
}

#[test]
fn parse_rejects_trailing_data() {
    let e = parse_json("{} x").unwrap_err();
    assert_eq!(e.kind, ParseErrorKind::Syntax);
    assert_eq!((e.position.line, e.position.column), (1, 4));
    assert_eq!(e.message, "trailing characters at line 1 column 4");
}

#[test]
fn parse_rejects_an_unterminated_string() {
    let e = parse_json("\"abc").unwrap_err();
    assert_eq!(e.kind, ParseErrorKind::UnexpectedEof);
    assert_eq!((e.position.line, e.position.column), (1, 4));
}

#[test]
fn parse_rejects_a_bad_number_and_mismatched_brackets() {
    assert_eq!(parse_json("01").unwrap_err().kind, ParseErrorKind::Syntax);
    assert_eq!(parse_json("-").unwrap_err().kind, ParseErrorKind::UnexpectedEof);
    assert_eq!(parse_json("[1, 2}").unwrap_err().kind, ParseErrorKind::Syntax);
    assert_eq!(parse_json("").unwrap_err().kind, ParseErrorKind::UnexpectedEof);
}

#[test]
fn reserialized_text_parses_to_the_same_document() {
    let sources = [
        r#"{ "name": "John", "age": 30, "city": "New York" }"#,
        r#"[1, -2, 1.5, "a\"b", null, true, {"k": []}]"#,
        r#""just a string""#,
        "42",
    ];
    for source in sources {
        let first = parse_json(source).unwrap();
        let again = parse_json(&serialize_json(&first).unwrap()).unwrap();
        assert_eq!(again, first);
    }
}

#[test]
fn serialize_indents_by_two_and_keeps_member_order() {
    let mut doc = john();
    edit_json(&mut doc, "age", number(35)).unwrap();
    assert_eq!(serialize_json(&doc).unwrap(), "{\n  \"name\": \"John\",\n  \"age\": 35\n}");
}

#[test]
fn validate_fails_on_a_key_that_the_schema_lacks() {
    let doc = object(vec![("name", text("John")), ("age", number(30)), ("city", text("NY"))]);
    let schema = object(vec![("name", text("")), ("age", number(0))]);
    assert_eq!(validate_json_schema(&doc, &schema), Err(ValidationError::StructuralMismatch));
}

#[test]
fn validate_ignores_what_the_schema_binds() {
    let doc = object(vec![("age", text("thirty"))]);
    let schema = object(vec![("age", number(0)), ("name", JsonValue::Null)]);
    assert_eq!(validate_json_schema(&doc, &schema), Ok(()));
    assert_eq!(validate_json_schema(&object(vec![]), &object(vec![])), Ok(()));
}

#[test]
fn validate_fails_unless_both_are_objects() {
    let array = JsonValue::Array(vec![number(1)]);
    assert_eq!(validate_json_schema(&array, &john()), Err(ValidationError::StructuralMismatch));
    assert_eq!(validate_json_schema(&john(), &array), Err(ValidationError::StructuralMismatch));
    assert_eq!(
        validate_json_schema(&JsonValue::Null, &JsonValue::Null),
        Err(ValidationError::StructuralMismatch)
    );
}

#[test]
fn validate_does_not_look_below_the_top_level() {
    let doc = object(vec![("inner", object(vec![("unknown", number(1))]))]);
    let schema = object(vec![("inner", object(vec![]))]);
    assert_eq!(validate_json_schema(&doc, &schema), Ok(()));
}

#[test]
fn get_returns_the_bound_value_or_none() {
    let doc = object(vec![("name", text("John")), ("city", text("New York"))]);
    assert_eq!(parse_partial_json(&doc, "city"), Some(text("New York")));
    assert_eq!(parse_partial_json(&object(vec![("a", number(1))]), "z"), None);
    assert_eq!(parse_partial_json(&JsonValue::Array(vec![number(1)]), "0"), None);
    assert_eq!(parse_partial_json(&text("city"), "city"), None);
}

#[test]
fn get_is_single_level() {
    let inner = object(vec![("b", number(1))]);
    let doc = object(vec![("a", inner.clone())]);
    assert_eq!(parse_partial_json(&doc, "b"), None);
    assert_eq!(parse_partial_json(&doc, "a.b"), None);
    assert_eq!(parse_partial_json(&doc, "a"), Some(inner.clone()));
    assert_eq!(parse_partial_json(&inner, "b"), Some(number(1)));
}

#[test]
fn set_overwrites_in_place_and_appends_new_keys() {
    let mut doc = john();
    assert_eq!(edit_json(&mut doc, "name", object(vec![("first", text("J"))])), Ok(()));
    assert_eq!(
        doc,
        object(vec![("name", object(vec![("first", text("J"))])), ("age", number(30))])
    );
    assert_eq!(edit_json(&mut doc, "city", text("NY")), Ok(()));
    assert_eq!(
        doc,
        object(vec![
            ("name", object(vec![("first", text("J"))])),
            ("age", number(30)),
            ("city", text("NY")),
        ])
    );
}

#[test]
fn set_refuses_what_is_no_object() {
    let mut doc = JsonValue::Array(vec![number(1), number(2), number(3)]);
    assert_eq!(edit_json(&mut doc, "age", number(35)), Err(EditError::NotAnObject));
    assert_eq!(doc, JsonValue::Array(vec![number(1), number(2), number(3)]));
    let mut scalar = JsonValue::Null;
    assert_eq!(edit_json(&mut scalar, "age", number(35)), Err(EditError::NotAnObject));
    assert_eq!(scalar, JsonValue::Null);
}

#[test]
fn yaml_reads_back_as_the_document() {
    let doc = parse_json(r#"{"name": "John", "age": 30, "tags": ["a", 1.5, null], "ok": true}"#)
        .unwrap();
    let yaml = convert_to_format(&doc, "yaml").unwrap();
    let back: serde_json::Value = serde_yaml::from_str(&yaml).unwrap();
    let source: serde_json::Value = serde_json::from_str(
        r#"{"name": "John", "age": 30, "tags": ["a", 1.5, null], "ok": true}"#,
    ).unwrap();
    assert_eq!(back, source);
}

#[test]
fn yaml_keeps_member_order() {
    assert_eq!(convert_to_format(&john(), "yaml").unwrap(), "name: John\nage: 30\n");
}

#[test]
fn xml_names_elements_by_keys_and_repeats_them_for_arrays() {
    assert_eq!(
        convert_to_format(&john(), "xml").unwrap(),
        "<root><name>John</name><age>30</age></root>"
    );
    let doc = object(vec![("tag", JsonValue::Array(vec![text("a"), text("b")]))]);
    assert_eq!(convert_to_format(&doc, "xml").unwrap(), "<root><tag>a</tag><tag>b</tag></root>");
}

#[test]
fn xml_fails_on_a_key_that_is_no_name() {
    let doc = object(vec![("1 2", number(1))]);
    assert_eq!(convert_to_format(&doc, "xml"), Err(ConversionError::SerializationFailed));
}

#[test]
fn convert_refuses_other_formats() {
    assert_eq!(
        convert_to_format(&john(), "csv"),
        Err(ConversionError::UnsupportedFormat("csv".to_string()))
    );
    assert_eq!(
        convert_to_format(&john(), "YAML"),
        Err(ConversionError::UnsupportedFormat("YAML".to_string()))
    );
    assert_eq!(
        convert_to_format(&john(), ""),
        Err(ConversionError::UnsupportedFormat(String::new()))
    );
}

#[test]
fn conversion_outcome_maps_a_missing_text_to_a_failure() {
    assert_eq!(json_parser::convert::conversion_outcome(Some("a: 1\n".to_string())), Ok("a: 1\n".to_string()));
    assert_eq!(
        json_parser::convert::conversion_outcome(None),
        Err(ConversionError::SerializationFailed)
    );
}

#[test]
fn copies_are_deep() {
    let doc = parse_json(r#"{"a": {"b": [1, {"c": "d"}]}}"#).unwrap();
    let copy = doc.deep_copy();
    assert_eq!(copy, doc);
    let mut changed = doc.clone();
    edit_json(&mut changed, "a", JsonValue::Null).unwrap();
    assert_ne!(changed, doc);
    assert_eq!(copy, doc);
}

#[test]
fn errors_describe_themselves() {
    assert_eq!(ParserError::SchemaValidationError.message(), "Schema validation failed");
    assert_eq!(
        ParserError::FileReadError("gone".to_string()).message(),
        "File read error: gone"
    );
    let cause = parse_json("{").unwrap_err();
    let sentence = cause.message.clone();
    assert_eq!(
        ParserError::from(cause).message(),
        format!("JSON parse error: {}", sentence)
    );
    assert_eq!(
        ParserError::from(ValidationError::StructuralMismatch),
        ParserError::SchemaValidationError
    );
    assert_eq!(EditError::NotAnObject.message(), "Invalid JSON structure for editing");
    assert_eq!(
        ConversionError::UnsupportedFormat("csv".to_string()).message(),
        "Unsupported format: csv"
    );
    assert_eq!(ConversionError::SerializationFailed.message(), "Serialization failed");
}

#[test]
fn a_key_bound_twice_breaks_the_invariant() {
    assert!(john().is_well_formed());
    assert!(JsonValue::Null.is_well_formed());
    assert!(object(vec![]).is_well_formed());
    let twice = object(vec![("a", number(1)), ("b", number(2)), ("a", number(3))]);
    assert!(!twice.is_well_formed());
    assert!(!JsonValue::Array(vec![number(1), twice.clone()]).is_well_formed());
    assert!(!object(vec![("outer", twice)]).is_well_formed());
    let same_key_on_two_levels = object(vec![("a", object(vec![("a", number(1))]))]);
    assert!(same_key_on_two_levels.is_well_formed());
    assert!(parse_json(r#"{"a": 1, "b": {"a": 2, "a": 3}}"#).unwrap().is_well_formed());
}

#[test]
fn set_keeps_the_invariant() {
    let mut doc = john();
    edit_json(&mut doc, "age", number(31)).unwrap();
    edit_json(&mut doc, "zip", number(7)).unwrap();
    edit_json(&mut doc, "zip", number(8)).unwrap();
    assert!(doc.is_well_formed());
    assert_eq!(doc, object(vec![("name", text("John")), ("age", number(31)), ("zip", number(8))]));
}

#[test]
fn lookup_takes_the_first_of_two_members_with_one_key() {
    let twice = object(vec![("a", number(1)), ("a", number(2))]);
    assert_eq!(parse_partial_json(&twice, "a"), Some(number(1)));
    assert!(JsonValue::is_object(&twice));
    assert!(!JsonValue::is_object(&number(1)));
}
