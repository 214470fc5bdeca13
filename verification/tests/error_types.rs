use sdk_claude_rust::error::{
    CliConnectionError, CliJsonDecodeError, CliNotFoundError, MessageParseError, ProcessError,
    SdkError,
};
use sdk_claude_rust::json::JsonValue;

#[test]
fn cli_connection_error_preserves_message() {
    let err = CliConnectionError::new("Failed to connect");
    assert_eq!(err.message(), "Failed to connect");
    assert_eq!(SdkError::CliConnection(err).message(), "Failed to connect");
}

#[test]
fn cli_not_found_error_formats_path_when_available() {
    let err = CliNotFoundError::new("CLI executable not found", Some("/tmp/agent".to_string()));
    assert!(err.message().contains("CLI executable not found"));
    assert!(err.message().contains("/tmp/agent"));
}

#[test]
fn process_error_includes_exit_code_and_stderr() {
    let err = ProcessError::new("Process failed", Some(1), Some("Command not found".into()));
    assert_eq!(err.exit_code(), Some(1));
    assert_eq!(err.stderr(), Some("Command not found"));
    let message = err.message();
    assert!(message.contains("Process failed"));
    assert!(message.contains("exit code: 1"));
    assert!(message.contains("Command not found"));
}

#[test]
fn cli_json_decode_error_exposes_line_and_message() {
    let err = CliJsonDecodeError::new("{invalid json}".to_string());
    assert_eq!(err.line(), "{invalid json}");
    assert!(err.message().contains("Failed to decode JSON"));
}

#[test]
fn message_parse_error_retains_payload() {
    let payload = JsonValue::Obj(vec![(
        "type".to_string(),
        JsonValue::Str("unknown".to_string()),
    )]);
    let err = MessageParseError::new("unknown type".to_string(), Some(payload.deep_clone()));
    assert_eq!(err.message(), "unknown type");
    assert_eq!(err.data(), Some(&payload));
}

#[test]
fn process_error_message_is_exactly_composed() {
    let err = ProcessError::new("Command failed", Some(3), Some("boom".to_string()));
    assert_eq!(err.message(), "Command failed (exit code: 3)\nError output: boom");
    let bare = ProcessError::new("Command failed", None, None);
    assert_eq!(bare.message(), "Command failed");
    let empty_stderr = ProcessError::new("Command failed", Some(2), Some(String::new()));
    assert_eq!(empty_stderr.message(), "Command failed (exit code: 2)");
}

#[test]
fn decode_error_snippet_is_bounded() {
    let long = "x".repeat(250);
    let err = CliJsonDecodeError::new(long.clone());
    assert_eq!(err.line(), long.as_str());
    let msg = err.message();
    assert_eq!(msg, format!("Failed to decode JSON: {}...", "x".repeat(100)));
}

#[test]
fn env_error_messages_name_their_phase() {
    let io = sdk_claude_rust::error::EnvError::Io("missing directory".to_string());
    assert_eq!(io.message(), "IO error: missing directory");
    let parse = sdk_claude_rust::error::EnvError::Parse("bad line".to_string());
    assert_eq!(parse.message(), "Parse error: bad line");
}
