use sdk_claude_rust::config::{build_command, CommandOptions, McpServers, SystemPrompt};
use sdk_claude_rust::hooks::{
    convert_hook_output_for_cli, hook_output_to_json, HookJsonOutput, SyncHookJsonOutput,
};
use sdk_claude_rust::json::JsonValue;
use sdk_claude_rust::mcp::{jsonrpc_error, McpToolCallResult, McpToolContent};
use sdk_claude_rust::mcp::convert_mcp_call_result;
use sdk_claude_rust::permission::{
    permission_response_payload, PermissionResult, PermissionResultAllow, PermissionResultDeny,
    PermissionUpdate, PermissionUpdateKind,
};
use sdk_claude_rust::query::{build_error_response, build_set_model_request, build_success_response};
use sdk_claude_rust::transport::PromptMode;

fn s(text: &str) -> JsonValue {
    JsonValue::Str(text.to_string())
}

fn obj(fields: Vec<(&str, JsonValue)>) -> JsonValue {
    JsonValue::Obj(fields.into_iter().map(|(k, v)| (k.to_string(), v)).collect())
}

fn num(lexeme: &str) -> JsonValue {
    JsonValue::Num(lexeme.to_string())
}

fn default_options() -> CommandOptions {
    CommandOptions {
        system_prompt: None,
        allowed_tools: Vec::new(),
        max_turns: None,
        max_budget_usd: None,
        disallowed_tools: Vec::new(),
        model: None,
        permission_prompt_tool_name: None,
        permission_mode: None,
        continue_conversation: false,
        resume: None,
        settings: None,
        add_dirs: Vec::new(),
        mcp_servers: McpServers::Table(Vec::new()),
        include_partial_messages: false,
        fork_session: false,
        agents: None,
        setting_sources: None,
        plugins: Vec::new(),
        extra_args: Vec::new(),
        max_thinking_tokens: None,
    }
}

#[test]
fn permission_update_payload_uses_wire_names() {
    let update = PermissionUpdate::new(PermissionUpdateKind::SetMode)
        .with_mode(sdk_claude_rust::permission::PermissionMode::AcceptEdits);
    assert_eq!(
        update.to_control_payload(),
        obj(vec![("type", s("setMode")), ("mode", s("acceptEdits"))])
    );
}

#[test]
fn allow_response_carries_the_original_input_by_default() {
    let input = obj(vec![("path", s("a.txt"))]);
    let allow = PermissionResult::Allow(PermissionResultAllow {
        updated_input: None,
        updated_permissions: None,
    });
    assert_eq!(
        permission_response_payload(&allow, &input),
        obj(vec![("behavior", s("allow")), ("updatedInput", obj(vec![("path", s("a.txt"))]))])
    );

    let modified = PermissionResult::Allow(PermissionResultAllow {
        updated_input: Some(obj(vec![("path", s("b.txt"))])),
        updated_permissions: None,
    });
    assert_eq!(
        permission_response_payload(&modified, &input),
        obj(vec![("behavior", s("allow")), ("updatedInput", obj(vec![("path", s("b.txt"))]))])
    );
}

#[test]
fn deny_response_includes_message_and_interrupt_only_when_set() {
    let input = obj(vec![]);
    let quiet = PermissionResult::Deny(PermissionResultDeny {
        message: String::new(),
        interrupt: false,
    });
    assert_eq!(permission_response_payload(&quiet, &input), obj(vec![("behavior", s("deny"))]));

    let loud = PermissionResult::Deny(PermissionResultDeny {
        message: "not now".to_string(),
        interrupt: true,
    });
    assert_eq!(
        permission_response_payload(&loud, &input),
        obj(vec![
            ("behavior", s("deny")),
            ("message", s("not now")),
            ("interrupt", JsonValue::Bool(true)),
        ])
    );
}

#[test]
fn hook_output_renders_reserved_word_fields() {
    let out = HookJsonOutput::Sync(SyncHookJsonOutput {
        should_continue: Some(false),
        suppress_output: None,
        stop_reason: Some("done".to_string()),
        decision: None,
        system_message: None,
        reason: None,
        hook_specific_output: None,
    });
    assert_eq!(
        hook_output_to_json(&out),
        obj(vec![("continue", JsonValue::Bool(false)), ("stopReason", s("done"))])
    );
}

#[test]
fn reserved_word_keys_are_rewritten_recursively() {
    let v = obj(vec![
        ("async_", JsonValue::Bool(true)),
        (
            "nested",
            JsonValue::Arr(vec![obj(vec![("continue_", JsonValue::Bool(false))])]),
        ),
        ("other", s("kept")),
    ]);
    assert_eq!(
        convert_hook_output_for_cli(&v),
        obj(vec![
            ("async", JsonValue::Bool(true)),
            (
                "nested",
                JsonValue::Arr(vec![obj(vec![("continue", JsonValue::Bool(false))])]),
            ),
            ("other", s("kept")),
        ])
    );
}

#[test]
fn jsonrpc_error_uses_method_not_found_code() {
    let reply = jsonrpc_error(num("4"), -32601, "Method 'x/y' not found".to_string());
    assert_eq!(
        reply,
        obj(vec![
            ("jsonrpc", s("2.0")),
            ("id", num("4")),
            (
                "error",
                obj(vec![("code", num("-32601")), ("message", s("Method 'x/y' not found"))]),
            ),
        ])
    );
}

#[test]
fn tool_results_are_wrapped_with_their_error_marker() {
    let ok = McpToolCallResult::new(vec![McpToolContent::text("4")]);
    assert_eq!(
        convert_mcp_call_result(&ok),
        obj(vec![(
            "content",
            JsonValue::Arr(vec![obj(vec![("type", s("text")), ("text", s("4"))])]),
        )])
    );
    let failed = McpToolCallResult::new(vec![McpToolContent::text("no")]).with_error(true);
    assert_eq!(
        convert_mcp_call_result(&failed),
        obj(vec![
            (
                "content",
                JsonValue::Arr(vec![obj(vec![("type", s("text")), ("text", s("no"))])]),
            ),
            ("is_error", JsonValue::Bool(true)),
        ])
    );
}

#[test]
fn control_response_envelopes_match_the_wire_shape() {
    assert_eq!(
        build_success_response("req_1_ff", s("payload")),
        obj(vec![
            ("type", s("control_response")),
            (
                "response",
                obj(vec![
                    ("subtype", s("success")),
                    ("request_id", s("req_1_ff")),
                    ("response", s("payload")),
                ]),
            ),
        ])
    );
    assert_eq!(
        build_error_response("req_1_ff", "went wrong".to_string()),
        obj(vec![
            ("type", s("control_response")),
            (
                "response",
                obj(vec![
                    ("subtype", s("error")),
                    ("request_id", s("req_1_ff")),
                    ("error", s("went wrong")),
                ]),
            ),
        ])
    );
}

#[test]
fn set_model_request_sends_null_for_no_model() {
    assert_eq!(
        build_set_model_request(None),
        obj(vec![("subtype", s("set_model")), ("model", JsonValue::Null)])
    );
    assert_eq!(
        build_set_model_request(Some("sonnet".to_string())),
        obj(vec![("subtype", s("set_model")), ("model", s("sonnet"))])
    );
}

#[test]
fn command_args_for_a_one_shot_prompt() {
    let options = default_options();
    let args = build_command(&PromptMode::Text("What is 2+2?".to_string()), &options)
        .expect("arguments should build");
    let expected: Vec<String> = vec![
        "--output-format",
        "stream-json",
        "--verbose",
        "--system-prompt",
        "",
        "--setting-sources",
        "",
        "--print",
        "--",
        "What is 2+2?",
    ]
    .into_iter()
    .map(String::from)
    .collect();
    assert_eq!(args, expected);
}

#[test]
fn command_args_cover_the_optional_sections() {
    let mut options = default_options();
    options.system_prompt = Some(SystemPrompt::Text("be brief".to_string()));
    options.allowed_tools = vec!["Bash".to_string(), "Read".to_string()];
    options.max_turns = Some(3);
    options.continue_conversation = true;
    options.add_dirs = vec!["/tmp/a".to_string()];
    options.mcp_servers = McpServers::Inline("{\"mcpServers\":{}}".to_string());
    options.extra_args = vec![("debug-to-stderr".to_string(), None)];
    let args = build_command(&PromptMode::Streaming, &options).expect("arguments should build");
    let expected: Vec<String> = vec![
        "--output-format",
        "stream-json",
        "--verbose",
        "--system-prompt",
        "be brief",
        "--allowedTools",
        "Bash,Read",
        "--max-turns",
        "3",
        "--continue",
        "--add-dir",
        "/tmp/a",
        "--mcp-config",
        "{\"mcpServers\":{}}",
        "--setting-sources",
        "",
        "--debug-to-stderr",
        "--input-format",
        "stream-json",
    ]
    .into_iter()
    .map(String::from)
    .collect();
    assert_eq!(args, expected);
}
