use json_parser::{
    handle_large_json, JsonValue, ParseErrorKind, Rest, Scan, Scanner, StreamDecoder,
};

fn key_value() -> JsonValue {
    JsonValue::Object(vec![("key".to_string(), JsonValue::String("value".to_string()))])
}

fn units_of(input: &[u8]) -> (Vec<Vec<u8>>, Rest) {
    let mut scanner = Scanner::new();
    let mut units = Vec::new();
    for b in input {
        if let Some(unit) = scanner.push(*b) {
            units.push(unit);
        }
    }
    (units, scanner.finish())
}

#[test]
fn test_handle_large_json() {
    let input = format!(
        "[{}]",
        (0..1000).map(|_| "{\"key\": \"value\"}").collect::<Vec<_>>().join(",")
    );
    let outcomes = handle_large_json(input.as_bytes());
    assert_eq!(outcomes.len(), 1);
    assert_eq!(outcomes[0], Ok(JsonValue::Array((0..1000).map(|_| key_value()).collect())));
}

#[test]
fn a_thousand_adjacent_objects_give_a_thousand_values() {
    let input = "{\"key\":\"value\"}".repeat(1000);
    let outcomes = handle_large_json(input.as_bytes());
    assert_eq!(outcomes.len(), 1000);
    assert!(outcomes.iter().all(|o| *o == Ok(key_value())));
}

#[test]
fn one_malformed_unit_costs_one_error() {
    let input = format!("{}{}", "{\"key\":}", "{\"key\":\"value\"}".repeat(999));
    let outcomes = handle_large_json(input.as_bytes());
    assert_eq!(outcomes.len(), 1000);
    assert_eq!(outcomes[0].as_ref().unwrap_err().kind, ParseErrorKind::Syntax);
    assert!(outcomes[1..].iter().all(|o| *o == Ok(key_value())));
    let input = format!("{} nul {}", "{\"key\":\"value\"}".repeat(3), "{\"key\":\"value\"}".repeat(2));
    let outcomes = handle_large_json(input.as_bytes());
    let marks: Vec<bool> = outcomes.iter().map(|o| o.is_ok()).collect();
    assert_eq!(marks, vec![true, true, true, false, true, true]);
}

#[test]
fn an_empty_stream_gives_nothing() {
    assert_eq!(handle_large_json(b""), vec![]);
    assert_eq!(handle_large_json(b" \n\t\r "), vec![]);
}

#[test]
fn units_are_cut_at_brackets_quotes_and_white_space() {
    let (units, rest) = units_of(b" {\"a\":[1,{}]}[] \"x y\"12 true\n[\"]\"]null");
    let expected: Vec<Vec<u8>> = vec![
        b"{\"a\":[1,{}]}".to_vec(),
        b"[]".to_vec(),
        b"\"x y\"".to_vec(),
        b"12".to_vec(),
        b"true".to_vec(),
        b"[\"]\"]".to_vec(),
    ];
    assert_eq!(units, expected);
    assert_eq!(rest, Rest::Whole(b"null".to_vec()));
}

#[test]
fn quotes_behind_a_backslash_do_not_end_a_string() {
    let (units, rest) = units_of(b"\"a\\\"b\"[\"\\\\\"]\"\\\\\"");
    let expected: Vec<Vec<u8>> =
        vec![b"\"a\\\"b\"".to_vec(), b"[\"\\\\\"]".to_vec(), b"\"\\\\\"".to_vec()];
    assert_eq!(units, expected);
    assert_eq!(rest, Rest::Nothing);
}

#[test]
fn the_scanner_tells_where_it_stands() {
    let mut scanner = Scanner::new();
    assert_eq!(scanner.scan(), Scan::Between);
    assert_eq!(scanner.push(b'['), None);
    assert_eq!(scanner.scan(), Scan::Nested { depth: 1, quoted: false, escaped: false });
    assert_eq!(scanner.push(b'{'), None);
    assert_eq!(scanner.push(b'"'), None);
    assert_eq!(scanner.push(b'\\'), None);
    assert_eq!(scanner.scan(), Scan::Nested { depth: 2, quoted: true, escaped: true });
    assert_eq!(scanner.push(b'"'), None);
    assert_eq!(scanner.scan(), Scan::Nested { depth: 2, quoted: true, escaped: false });
    assert_eq!(scanner.push(b'"'), None);
    assert_eq!(scanner.push(b'}'), None);
    assert_eq!(scanner.scan(), Scan::Nested { depth: 1, quoted: false, escaped: false });
    assert_eq!(scanner.push(b']'), Some(b"[{\"\\\"\"}]".to_vec()));
    assert_eq!(scanner.scan(), Scan::Between);
    assert_eq!(scanner.push(b'7'), None);
    assert_eq!(scanner.scan(), Scan::Bare);
    assert_eq!(scanner.push(b'"'), Some(b"7".to_vec()));
    assert_eq!(scanner.scan(), Scan::Quoted { escaped: false });
    assert_eq!(scanner.finish(), Rest::Partial(b"\"".to_vec()));
    assert_eq!(scanner.scan(), Scan::Between);
}

#[test]
fn a_stream_that_ends_inside_a_unit_ends_with_an_error() {
    let outcomes = handle_large_json(b"{\"a\":1} {\"b\":\n [1,\n2");
    assert_eq!(outcomes.len(), 2);
    assert!(outcomes[0].is_ok());
    let e = outcomes[1].as_ref().unwrap_err();
    assert_eq!(e.kind, ParseErrorKind::UnexpectedEof);
    assert_eq!((e.position.line, e.position.column), (3, 1));
    assert_eq!(e.message, "unexpected end of input");
    let outcomes = handle_large_json(b"\"abc");
    assert_eq!(outcomes.len(), 1);
    let e = outcomes[0].as_ref().unwrap_err();
    assert_eq!(e.kind, ParseErrorKind::UnexpectedEof);
    assert_eq!((e.position.line, e.position.column), (1, 4));
}

#[test]
fn a_bare_run_is_whole_at_the_end_of_the_stream() {
    let outcomes = handle_large_json(b"1 2 3");
    let three: Vec<JsonValue> =
        (1..4u64).map(|n| JsonValue::Number(serde_json::Number::from(n))).collect();
    assert_eq!(outcomes, three.into_iter().map(Ok).collect::<Vec<_>>());
}

#[test]
fn unbalanced_brackets_swallow_what_follows() {
    let outcomes = handle_large_json(b"{\"a\": [1 {\"b\":2}");
    assert_eq!(outcomes.len(), 1);
    assert_eq!(outcomes[0].as_ref().unwrap_err().kind, ParseErrorKind::UnexpectedEof);
}

#[test]
fn mismatched_brackets_are_one_malformed_unit() {
    let outcomes = handle_large_json(b"[1,2} [3]");
    assert_eq!(outcomes.len(), 2);
    assert_eq!(outcomes[0].as_ref().unwrap_err().kind, ParseErrorKind::Syntax);
    assert_eq!(
        outcomes[1],
        Ok(JsonValue::Array(vec![JsonValue::Number(serde_json::Number::from(3u64))]))
    );
}

#[test]
fn portions_do_not_matter() {
    let input = b" {\"a\": [1, 2, {\"b\": \"}{\"}]} 17 \"x\\\"y\" [tru] {\"c\":".to_vec();
    let whole = handle_large_json(&input);
    assert_eq!(whole.len(), 5);
    for size in 1..input.len() {
        let mut decoder = StreamDecoder::new();
        let mut outcomes = Vec::new();
        for chunk in input.chunks(size) {
            outcomes.extend(decoder.feed(chunk));
        }
        outcomes.extend(decoder.finish());
        assert_eq!(outcomes, whole);
    }
}

#[test]
fn a_decoder_is_as_new_after_the_end() {
    let mut decoder = StreamDecoder::new();
    assert_eq!(decoder.feed(b"[1"), vec![]);
    assert_eq!(decoder.finish().unwrap().unwrap_err().kind, ParseErrorKind::UnexpectedEof);
    assert_eq!(decoder.finish(), None);
    assert_eq!(decoder.feed(b"{\"key\":\"value\"}"), vec![Ok(key_value())]);
    assert_eq!(decoder.finish(), None);
}
