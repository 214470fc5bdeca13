use sdk_claude_rust::error::SdkError;
use sdk_claude_rust::json::JsonValue;
use sdk_claude_rust::message::{ContentBlock, Message, UserMessageContent};
use sdk_claude_rust::message_parser::parse_message;

fn s(text: &str) -> JsonValue {
    JsonValue::Str(text.to_string())
}

fn obj(fields: Vec<(&str, JsonValue)>) -> JsonValue {
    JsonValue::Obj(fields.into_iter().map(|(k, v)| (k.to_string(), v)).collect())
}

fn num(lexeme: &str) -> JsonValue {
    JsonValue::Num(lexeme.to_string())
}

#[test]
fn parses_user_text_message() {
    let raw = obj(vec![
        ("type", s("user")),
        (
            "message",
            obj(vec![(
                "content",
                JsonValue::Arr(vec![obj(vec![("type", s("text")), ("text", s("Hello"))])]),
            )]),
        ),
    ]);

    let message = parse_message(&raw).expect("failed to parse user message");
    match message {
        Message::User(user) => match user.content {
            UserMessageContent::Blocks(blocks) => {
                assert_eq!(blocks.len(), 1);
                match &blocks[0] {
                    ContentBlock::Text(block) => assert_eq!(block.text, "Hello"),
                    other => panic!("expected text block, got {other:?}"),
                }
            }
            other => panic!("expected block content, got {other:?}"),
        },
        other => panic!("expected user message, got {other:?}"),
    }
}

#[test]
fn parses_user_message_with_tool_use_and_result() {
    let raw = obj(vec![
        ("type", s("user")),
        ("parent_tool_use_id", s("tool_parent")),
        (
            "message",
            obj(vec![(
                "content",
                JsonValue::Arr(vec![
                    obj(vec![
                        ("type", s("tool_use")),
                        ("id", s("tool_123")),
                        ("name", s("Read")),
                        ("input", obj(vec![("path", s("test.txt"))])),
                    ]),
                    obj(vec![
                        ("type", s("tool_result")),
                        ("tool_use_id", s("tool_123")),
                        ("content", s("done")),
                    ]),
                ]),
            )]),
        ),
    ]);

    let message = parse_message(&raw).expect("failed to parse user message with tool blocks");
    match message {
        Message::User(user) => {
            assert_eq!(user.parent_tool_use_id.as_deref(), Some("tool_parent"));
            let blocks = match user.content {
                UserMessageContent::Blocks(blocks) => blocks,
                other => panic!("expected blocks content, got {other:?}"),
            };
            assert_eq!(blocks.len(), 2);
            match &blocks[0] {
                ContentBlock::ToolUse(tool) => {
                    assert_eq!(tool.id, "tool_123");
                    assert_eq!(tool.name, "Read");
                    assert_eq!(
                        tool.input.get("path").and_then(|v| v.as_str()).map(|x| x.as_str()),
                        Some("test.txt")
                    );
                }
                other => panic!("expected tool_use, got {other:?}"),
            }
            match &blocks[1] {
                ContentBlock::ToolResult(result) => {
                    assert_eq!(result.tool_use_id, "tool_123");
                    assert_eq!(
                        result.content.as_ref().and_then(|v| v.as_str()).map(|x| x.as_str()),
                        Some("done")
                    );
                    assert!(result.is_error.is_none());
                }
                other => panic!("expected tool_result, got {other:?}"),
            }
        }
        other => panic!("expected user message, got {other:?}"),
    }
}

#[test]
fn parses_assistant_message_with_thinking_block() {
    let raw = obj(vec![
        ("type", s("assistant")),
        (
            "message",
            obj(vec![
                ("model", s("opus-test-model")),
                (
                    "content",
                    JsonValue::Arr(vec![
                        obj(vec![
                            ("type", s("thinking")),
                            ("thinking", s("calculating")),
                            ("signature", s("sig")),
                        ]),
                        obj(vec![("type", s("text")), ("text", s("answer"))]),
                    ]),
                ),
            ]),
        ),
    ]);

    let message = parse_message(&raw).expect("failed to parse assistant message");
    match message {
        Message::Assistant(assistant) => {
            assert_eq!(assistant.model, "opus-test-model");
            assert_eq!(assistant.content.len(), 2);
            match &assistant.content[0] {
                ContentBlock::Thinking(block) => {
                    assert_eq!(block.thinking, "calculating");
                    assert_eq!(block.signature, "sig");
                }
                other => panic!("expected thinking block, got {other:?}"),
            }
            assert!(matches!(assistant.content[1], ContentBlock::Text(_)));
        }
        other => panic!("expected assistant message, got {other:?}"),
    }
}

#[test]
fn parses_system_message() {
    let raw = obj(vec![
        ("type", s("system")),
        ("subtype", s("start")),
        ("note", s("init")),
    ]);

    let message = parse_message(&raw).expect("failed to parse system message");
    match message {
        Message::System(system) => {
            assert_eq!(system.subtype, "start");
            assert_eq!(
                system.data.get("note").and_then(|v| v.as_str()).map(|x| x.as_str()),
                Some("init")
            );
        }
        other => panic!("expected system message, got {other:?}"),
    }
}

#[test]
fn parses_result_message() {
    let raw = obj(vec![
        ("type", s("result")),
        ("subtype", s("success")),
        ("duration_ms", num("1000")),
        ("duration_api_ms", num("900")),
        ("is_error", JsonValue::Bool(false)),
        ("num_turns", num("2")),
        ("session_id", s("sess")),
        ("result", s("ok")),
    ]);

    let message = parse_message(&raw).expect("failed to parse result message");
    match message {
        Message::Result(result) => {
            assert_eq!(result.subtype, "success");
            assert_eq!(result.duration_ms, 1000);
            assert_eq!(result.result.as_deref(), Some("ok"));
        }
        other => panic!("expected result message, got {other:?}"),
    }
}

#[test]
fn parses_stream_event() {
    let raw = obj(vec![
        ("type", s("stream_event")),
        ("uuid", s("event-1")),
        ("session_id", s("sess")),
        ("event", obj(vec![("delta", s("..."))])),
    ]);

    let message = parse_message(&raw).expect("failed to parse stream event");
    match message {
        Message::StreamEvent(event) => {
            assert_eq!(event.uuid, "event-1");
            assert_eq!(event.session_id, "sess");
            assert!(event.event.get("delta").is_some());
        }
        other => panic!("expected stream event, got {other:?}"),
    }
}

#[test]
fn rejects_invalid_message_data_type() {
    let raw = s("oops");
    let err = parse_message(&raw).expect_err("expected parse error");
    match err {
        SdkError::MessageParse(parse_err) => {
            assert!(parse_err.message().contains("Invalid message data type"));
            assert!(parse_err.message().contains("string"));
            assert_eq!(parse_err.data(), Some(&raw));
        }
        other => panic!("expected MessageParse error, got {other:?}"),
    }
}

#[test]
fn rejects_missing_type_field() {
    let raw = obj(vec![(
        "message",
        obj(vec![("content", JsonValue::Arr(vec![]))]),
    )]);
    let err = parse_message(&raw).expect_err("expected parse error");
    match err {
        SdkError::MessageParse(parse_err) => {
            assert!(parse_err.message().contains("Message missing 'type' field"));
        }
        other => panic!("expected MessageParse error, got {other:?}"),
    }
}

#[test]
fn rejects_unknown_message_type() {
    let raw = obj(vec![("type", s("unknown"))]);
    let err = parse_message(&raw).expect_err("expected parse error");
    match err {
        SdkError::MessageParse(parse_err) => {
            assert!(parse_err.message().contains("Unknown message type"));
            assert_eq!(parse_err.data(), Some(&raw));
        }
        other => panic!("expected MessageParse error, got {other:?}"),
    }
}

#[test]
fn result_message_keeps_cost_and_usage_values() {
    let raw = obj(vec![
        ("type", s("result")),
        ("subtype", s("success")),
        ("duration_ms", num("10")),
        ("duration_api_ms", num("5")),
        ("is_error", JsonValue::Bool(false)),
        ("num_turns", num("1")),
        ("session_id", s("sess")),
        ("total_cost_usd", num("0.25")),
        ("usage", obj(vec![("input_tokens", num("7"))])),
    ]);
    let message = parse_message(&raw).expect("failed to parse result message");
    match message {
        Message::Result(result) => {
            assert_eq!(result.total_cost_usd, Some(num("0.25")));
            assert_eq!(
                result.usage.and_then(|u| u.get("input_tokens").map(|v| v.deep_clone())),
                Some(num("7"))
            );
            assert!(result.result.is_none());
        }
        other => panic!("expected result message, got {other:?}"),
    }
}

#[test]
fn rejects_fractional_duration() {
    let raw = obj(vec![
        ("type", s("result")),
        ("subtype", s("success")),
        ("duration_ms", num("10.5")),
        ("duration_api_ms", num("5")),
        ("is_error", JsonValue::Bool(false)),
        ("num_turns", num("1")),
        ("session_id", s("sess")),
    ]);
    let err = parse_message(&raw).expect_err("expected parse error");
    assert!(matches!(err, SdkError::MessageParse(_)));
}
