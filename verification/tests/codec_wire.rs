use sdk_claude_rust::codec::{parse_json, write_json};
use sdk_claude_rust::json::JsonValue;
use sdk_claude_rust::text::{i64_to_string, str_eq, u64_to_string};
use sdk_claude_rust::transport::{frame_to_line, parse_version_components, DecodeStep, FrameDecoder};

fn s(text: &str) -> JsonValue {
    JsonValue::Str(text.to_string())
}

fn num(lexeme: &str) -> JsonValue {
    JsonValue::Num(lexeme.to_string())
}

#[test]
fn parses_scalars_arrays_and_objects() {
    assert_eq!(parse_json(b"null"), Some(JsonValue::Null));
    assert_eq!(parse_json(b"true"), Some(JsonValue::Bool(true)));
    assert_eq!(parse_json(b"false"), Some(JsonValue::Bool(false)));
    assert_eq!(parse_json(b"-12.5e3"), Some(num("-12.5e3")));
    assert_eq!(parse_json(b"\"hi\""), Some(s("hi")));
    assert_eq!(
        parse_json(b" [1, \"two\", null] "),
        Some(JsonValue::Arr(vec![num("1"), s("two"), JsonValue::Null]))
    );
    assert_eq!(
        parse_json(b"{\"a\": 1, \"b\": [true]}"),
        Some(JsonValue::Obj(vec![
            ("a".to_string(), num("1")),
            ("b".to_string(), JsonValue::Arr(vec![JsonValue::Bool(true)])),
        ]))
    );
}

#[test]
fn parses_string_escapes() {
    assert_eq!(parse_json(b"\"a\\n\\t\\\"\\\\b\""), Some(s("a\n\t\"\\b")));
    assert_eq!(parse_json(b"\"\\u0041\\u00e9\""), Some(s("A\u{e9}")));
    // A surrogate pair decodes to one supplementary character.
    assert_eq!(parse_json(b"\"\\ud83d\\ude00\""), Some(s("\u{1f600}")));
    // A lone surrogate is rejected.
    assert_eq!(parse_json(b"\"\\ud83d\""), None);
}

#[test]
fn rejects_malformed_documents() {
    assert_eq!(parse_json(b""), None);
    assert_eq!(parse_json(b"{"), None);
    assert_eq!(parse_json(b"{\"a\":}"), None);
    assert_eq!(parse_json(b"[1,]"), None);
    assert_eq!(parse_json(b"01"), None);
    assert_eq!(parse_json(b"1."), None);
    assert_eq!(parse_json(b"\"unterminated"), None);
    assert_eq!(parse_json(b"nul"), None);
    assert_eq!(parse_json(b"{} {}"), None);
}

#[test]
fn serializes_compactly() {
    let v = JsonValue::Obj(vec![
        ("a".to_string(), num("1")),
        (
            "b".to_string(),
            JsonValue::Arr(vec![JsonValue::Bool(true), JsonValue::Null, s("x\ny")]),
        ),
    ]);
    let out = write_json(&v);
    assert_eq!(out, b"{\"a\":1,\"b\":[true,null,\"x\\ny\"]}".to_vec());
}

#[test]
fn serializer_escapes_control_characters() {
    let out = write_json(&s("q\"\\\u{1}"));
    assert_eq!(out, b"\"q\\\"\\\\\\u0001\"".to_vec());
}

#[test]
fn parse_inverts_serialize_on_samples() {
    let samples = vec![
        JsonValue::Null,
        JsonValue::Bool(true),
        num("-42"),
        s("nested \"quotes\" and \\ slashes"),
        JsonValue::Arr(vec![num("1"), JsonValue::Arr(vec![]), JsonValue::Obj(vec![])]),
        JsonValue::Obj(vec![
            ("k".to_string(), s("v")),
            ("list".to_string(), JsonValue::Arr(vec![JsonValue::Bool(false)])),
        ]),
    ];
    for v in samples {
        let bytes = write_json(&v);
        assert_eq!(parse_json(&bytes), Some(v));
    }
}

#[test]
fn frame_lines_end_with_newline() {
    let v = JsonValue::Obj(vec![("type".to_string(), s("user"))]);
    let line = frame_to_line(&v);
    assert_eq!(line, b"{\"type\":\"user\"}\n".to_vec());
}

#[test]
fn decoder_assembles_split_frames() {
    let mut dec = FrameDecoder::new(1024);
    assert!(matches!(dec.feed_fragment("  \n"), DecodeStep::Incomplete));
    assert!(matches!(dec.feed_fragment("{\"type\":"), DecodeStep::Incomplete));
    match dec.feed_fragment("\"user\"}") {
        DecodeStep::Frame(v) => {
            assert_eq!(v, JsonValue::Obj(vec![("type".to_string(), s("user"))]));
        }
        other => panic!("expected a decoded frame, got {other:?}"),
    }
    // The buffer is clear again: a new frame decodes on its own.
    match dec.feed_fragment("true") {
        DecodeStep::Frame(v) => assert_eq!(v, JsonValue::Bool(true)),
        other => panic!("expected a decoded frame, got {other:?}"),
    }
}

#[test]
fn decoder_overflow_is_one_error_and_discards_buffer() {
    let mut dec = FrameDecoder::new(8);
    match dec.feed_fragment("{\"aaaaaaaaaa\":") {
        DecodeStep::Overflow(e) => {
            assert_eq!(e.line(), "{\"aaaaaaaaaa\":");
        }
        other => panic!("expected an overflow, got {other:?}"),
    }
    // The oversized partial frame was discarded; decoding continues.
    match dec.feed_fragment("true") {
        DecodeStep::Frame(v) => assert_eq!(v, JsonValue::Bool(true)),
        other => panic!("expected a decoded frame, got {other:?}"),
    }
}

#[test]
fn integer_lexemes_render_and_read_back() {
    assert_eq!(i64_to_string(0), "0");
    assert_eq!(i64_to_string(-1), "-1");
    assert_eq!(i64_to_string(9007199254740993), "9007199254740993");
    assert_eq!(i64_to_string(i64::MIN), "-9223372036854775808");
    assert_eq!(u64_to_string(18446744073709551615), "18446744073709551615");

    assert_eq!(num("9223372036854775807").as_i64(), Some(i64::MAX));
    assert_eq!(num("-9223372036854775808").as_i64(), Some(i64::MIN));
    assert_eq!(num("9223372036854775808").as_i64(), None);
    assert_eq!(num("1e2").as_i64(), None);
    assert_eq!(num("10.5").as_i64(), None);
    assert_eq!(s("3").as_i64(), None);
}

#[test]
fn string_equality_is_by_content() {
    let a = String::from("hello");
    let b = format!("hel{}", "lo");
    assert!(str_eq(a.as_str(), b.as_str()));
    assert!(!str_eq("hello", "hellx"));
    assert!(!str_eq("hello", "hell"));
}

#[test]
fn version_components_come_from_the_first_version_token() {
    assert_eq!(parse_version_components("2.0.32 (build 7)"), Some((2, 0, 32)));
    assert_eq!(parse_version_components("v is 1.2"), Some((1, 2, 0)));
    assert_eq!(parse_version_components("  7 "), Some((7, 0, 0)));
    assert_eq!(parse_version_components("no digits here"), None);
    assert_eq!(parse_version_components("1..2"), None);
    assert_eq!(parse_version_components("4294967296"), None);
    assert_eq!(parse_version_components("4294967295.1"), Some((4294967295, 1, 0)));
}
