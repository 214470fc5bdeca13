use sdk_claude_rust::error::SdkError;
use sdk_claude_rust::hooks::{HookEvent, HookInput, HookMatcher};
use sdk_claude_rust::json::JsonValue;
use sdk_claude_rust::mcp::McpToolInfo;
use sdk_claude_rust::message::Message;
use sdk_claude_rust::query::{
    classify_frame, validate_permission_options, ControlOutcome, DispatchStep, FrameClass,
    FrameOutcome, McpServerInfo, NextStep, Query,
};

fn s(text: &str) -> JsonValue {
    JsonValue::Str(text.to_string())
}

fn obj(fields: Vec<(&str, JsonValue)>) -> JsonValue {
    JsonValue::Obj(fields.into_iter().map(|(k, v)| (k.to_string(), v)).collect())
}

fn num(lexeme: &str) -> JsonValue {
    JsonValue::Num(lexeme.to_string())
}

fn new_query() -> Query {
    Query::new(true, "fffe".to_string(), false, None, Vec::new())
}

fn assistant_frame(text: &str) -> JsonValue {
    obj(vec![
        ("type", s("assistant")),
        (
            "message",
            obj(vec![
                ("model", s("test-model")),
                (
                    "content",
                    JsonValue::Arr(vec![obj(vec![("type", s("text")), ("text", s(text))])]),
                ),
            ]),
        ),
    ])
}

fn result_frame() -> JsonValue {
    obj(vec![
        ("type", s("result")),
        ("subtype", s("success")),
        ("duration_ms", num("1000")),
        ("duration_api_ms", num("900")),
        ("is_error", JsonValue::Bool(false)),
        ("num_turns", num("1")),
        ("session_id", s("sess-123")),
    ])
}

fn success_response(request_id: &str, payload: JsonValue) -> JsonValue {
    obj(vec![
        ("type", s("control_response")),
        (
            "response",
            obj(vec![
                ("subtype", s("success")),
                ("request_id", s(request_id)),
                ("response", payload),
            ]),
        ),
    ])
}

#[test]
fn content_messages_arrive_in_emission_order() {
    // An assistant frame, then a result frame, then end of stream: the
    // consumer sees exactly two messages, in that order, then the end.
    let mut q = new_query();
    assert!(matches!(q.route_frame(&assistant_frame("Hello")), FrameOutcome::ContentQueued));
    assert!(matches!(q.route_frame(&result_frame()), FrameOutcome::ContentQueued));
    q.on_transport_end();

    match q.next_message() {
        NextStep::Item(Message::Assistant(a)) => assert_eq!(a.model, "test-model"),
        other => panic!("expected an assistant message, got {other:?}"),
    }
    match q.next_message() {
        NextStep::Item(Message::Result(r)) => assert_eq!(r.session_id, "sess-123"),
        other => panic!("expected a result message, got {other:?}"),
    }
    assert!(matches!(q.next_message(), NextStep::Ended));
}

#[test]
fn control_frames_never_reach_the_content_queue() {
    let mut q = new_query();
    let (id, _env) = q
        .prepare_control_request(sdk_claude_rust::query::build_subtype_request("interrupt"))
        .expect("request should register");
    assert!(matches!(
        q.route_frame(&success_response(id.as_str(), JsonValue::Null)),
        FrameOutcome::Resolved(_, _)
    ));
    assert!(matches!(q.route_frame(&assistant_frame("only me")), FrameOutcome::ContentQueued));
    q.on_transport_end();
    assert!(matches!(q.next_message(), NextStep::Item(Message::Assistant(_))));
    assert!(matches!(q.next_message(), NextStep::Ended));
}

#[test]
fn response_resolves_exactly_the_matching_request() {
    let mut q = new_query();
    let (id_a, _) = q
        .prepare_control_request(sdk_claude_rust::query::build_subtype_request("interrupt"))
        .expect("first request");
    let (id_b, _) = q
        .prepare_control_request(sdk_claude_rust::query::build_subtype_request("interrupt"))
        .expect("second request");
    assert_ne!(id_a, id_b);

    // Resolving B first leaves A still pending.
    match q.route_frame(&success_response(id_b.as_str(), s("done"))) {
        FrameOutcome::Resolved(rid, ControlOutcome::Success(p)) => {
            assert_eq!(rid, id_b);
            assert_eq!(p, s("done"));
        }
        other => panic!("expected a resolution, got {other:?}"),
    }
    assert!(q.pending.iter().any(|p| p == &id_a));
    assert!(!q.pending.iter().any(|p| p == &id_b));

    // A response with no matching pending request is silently dropped.
    assert!(matches!(
        q.route_frame(&success_response(id_b.as_str(), JsonValue::Null)),
        FrameOutcome::Ignored
    ));
}

#[test]
fn timeout_removes_the_registration() {
    let mut q = new_query();
    let (id, _) = q
        .prepare_control_request(sdk_claude_rust::query::build_subtype_request("interrupt"))
        .expect("request");
    let err = q.on_request_timeout(id.as_str());
    assert!(matches!(err, SdkError::Timeout));
    assert!(q.pending.is_empty());
    // The same response afterwards matches nothing.
    assert!(matches!(
        q.route_frame(&success_response(id.as_str(), JsonValue::Null)),
        FrameOutcome::Ignored
    ));
}

#[test]
fn error_response_carries_server_message() {
    let mut q = new_query();
    let (id, _) = q
        .prepare_control_request(sdk_claude_rust::query::build_subtype_request("interrupt"))
        .expect("request");
    let frame = obj(vec![
        ("type", s("control_response")),
        (
            "response",
            obj(vec![
                ("subtype", s("error")),
                ("request_id", s(id.as_str())),
                ("error", s("no such operation")),
            ]),
        ),
    ]);
    match q.route_frame(&frame) {
        FrameOutcome::Resolved(rid, ControlOutcome::Failure(m)) => {
            assert_eq!(rid, id);
            assert_eq!(m, "no such operation");
        }
        other => panic!("expected a failed resolution, got {other:?}"),
    }
}

#[test]
fn interrupt_envelope_has_the_right_shape() {
    // The transport receives a control-request frame whose payload subtype
    // is `interrupt`, tagged with the registered id.
    let mut q = new_query();
    let (id, env) = q
        .prepare_control_request(sdk_claude_rust::query::build_subtype_request("interrupt"))
        .expect("request");
    assert_eq!(
        env.get("type").and_then(|v| v.as_str()).map(|x| x.as_str()),
        Some("control_request")
    );
    assert_eq!(
        env.get("request_id").and_then(|v| v.as_str()).map(|x| x.as_str()),
        Some(id.as_str())
    );
    let subtype = env
        .get("request")
        .and_then(|r| r.get("subtype"))
        .and_then(|v| v.as_str())
        .map(|x| x.as_str());
    assert_eq!(subtype, Some("interrupt"));
    assert!(matches!(classify_frame(&env), FrameClass::ControlRequest));
}

#[test]
fn unknown_frame_type_ends_the_session() {
    let mut q = new_query();
    assert!(matches!(q.route_frame(&assistant_frame("first")), FrameOutcome::ContentQueued));
    let bad = obj(vec![("type", s("mystery"))]);
    assert!(matches!(q.route_frame(&bad), FrameOutcome::SessionFailed));
    // Nothing after the failure is accepted.
    assert!(matches!(q.route_frame(&assistant_frame("late")), FrameOutcome::Ignored));
    // The message before the failure is still delivered, then the error
    // comes exactly once, then the stream is over.
    assert!(matches!(q.next_message(), NextStep::Item(Message::Assistant(_))));
    match q.next_message() {
        NextStep::Failed(e) => assert!(e.message().contains("Unknown message type")),
        other => panic!("expected the terminal error, got {other:?}"),
    }
    assert!(matches!(q.next_message(), NextStep::Ended));
}

#[test]
fn transport_error_is_reported_once() {
    let mut q = new_query();
    assert!(q.on_transport_error(SdkError::Message("boom".to_string())));
    // A second terminal report changes nothing.
    assert!(!q.on_transport_error(SdkError::Message("boom again".to_string())));
    match q.next_message() {
        NextStep::Failed(e) => assert_eq!(e.message(), "boom"),
        other => panic!("expected the terminal error, got {other:?}"),
    }
    assert!(matches!(q.next_message(), NextStep::Ended));
}

#[test]
fn control_requests_require_streaming_mode() {
    let mut q = Query::new(false, "fffe".to_string(), false, None, Vec::new());
    match q.prepare_control_request(sdk_claude_rust::query::build_subtype_request("interrupt")) {
        Err(e) => assert_eq!(e.message(), "control requests require streaming mode"),
        Ok(_) => panic!("a one-shot session must refuse control requests"),
    }
}

#[test]
fn close_is_terminal_and_fails_pending_requests() {
    let mut q = new_query();
    let (id, _) = q
        .prepare_control_request(sdk_claude_rust::query::build_subtype_request("interrupt"))
        .expect("request");
    let failed = q.close();
    assert_eq!(failed, vec![id]);
    assert!(q.close().is_empty());
    assert!(matches!(q.route_frame(&assistant_frame("late")), FrameOutcome::Ignored));
    assert!(matches!(q.next_message(), NextStep::Ended));
}

#[test]
fn hook_registration_yields_distinct_ids() {
    // Three callbacks under one event become three distinct opaque ids.
    let matchers = vec![
        HookMatcher { matcher: Some(s("Bash")), hook_count: 2 },
        HookMatcher { matcher: None, hook_count: 1 },
        HookMatcher { matcher: None, hook_count: 0 },
    ];
    let hooks = vec![(HookEvent::PreToolUse, matchers)];
    let mut q = Query::new(true, "fffe".to_string(), false, Some(hooks), Vec::new());
    let cfg = q.prepare_hooks_configuration().expect("hooks were registered");

    assert_eq!(q.hook_callback_ids.len(), 3);
    for i in 0..q.hook_callback_ids.len() {
        for j in 0..i {
            assert_ne!(q.hook_callback_ids[i], q.hook_callback_ids[j]);
        }
    }

    let entries = cfg
        .get("PreToolUse")
        .and_then(|v| v.as_array())
        .map(|v| v.len())
        .unwrap_or(0);
    // The empty matcher is omitted from the wire structure.
    assert_eq!(entries, 2);

    // A second run has nothing left to consume.
    assert!(q.prepare_hooks_configuration().is_none());
}

#[test]
fn hook_callback_dispatch_checks_the_registry() {
    let matchers = vec![HookMatcher { matcher: None, hook_count: 1 }];
    let hooks = vec![(HookEvent::PreToolUse, matchers)];
    let mut q = Query::new(true, "fffe".to_string(), false, Some(hooks), Vec::new());
    q.prepare_hooks_configuration();
    let id = q.hook_callback_ids[0].clone();

    let input = obj(vec![
        ("hookEventName", s("PreToolUse")),
        ("sessionId", s("sess")),
        ("transcriptPath", s("/tmp/t")),
        ("cwd", s("/tmp")),
        ("toolName", s("Bash")),
        ("toolInput", obj(vec![("command", s("ls"))])),
    ]);
    let request = obj(vec![
        ("subtype", s("hook_callback")),
        ("callback_id", s(id.as_str())),
        ("input", input),
        ("tool_use_id", s("tool-9")),
    ]);
    match q.dispatch_control_request(Some(&request)) {
        DispatchStep::HookInvoke { callback_id, input, tool_use_id } => {
            assert_eq!(callback_id, id);
            assert_eq!(tool_use_id.as_deref(), Some("tool-9"));
            match input {
                HookInput::PreToolUse(h) => {
                    assert_eq!(h.tool_name, "Bash");
                    assert_eq!(h.base.session_id, "sess");
                }
                other => panic!("expected a PreToolUse input, got {other:?}"),
            }
        }
        other => panic!("expected a hook invocation, got {other:?}"),
    }

    let unknown = obj(vec![
        ("subtype", s("hook_callback")),
        ("callback_id", s("hook_99")),
    ]);
    match q.dispatch_control_request(Some(&unknown)) {
        DispatchStep::Fail(m) => assert_eq!(m, "No hook callback found for ID: hook_99"),
        other => panic!("expected a local failure, got {other:?}"),
    }
}

#[test]
fn unknown_tool_call_is_a_jsonrpc_error_not_a_crash() {
    let server = McpServerInfo {
        name: "calc".to_string(),
        version: "1.0.0".to_string(),
        tools: vec![McpToolInfo::new("add", Some("adds".to_string()), None)],
    };
    let mut q = Query::new(true, "fffe".to_string(), false, None, vec![server]);
    let request = obj(vec![
        ("subtype", s("mcp_message")),
        ("server_name", s("calc")),
        (
            "message",
            obj(vec![
                ("jsonrpc", s("2.0")),
                ("id", num("7")),
                ("method", s("tools/call")),
                ("params", obj(vec![("name", s("nope"))])),
            ]),
        ),
    ]);
    match q.dispatch_control_request(Some(&request)) {
        DispatchStep::McpReply(p) => {
            let err = p.get("error").expect("an error object");
            assert_eq!(err.get("code").and_then(|v| v.as_i64()), Some(-32603));
            assert_eq!(
                err.get("message").and_then(|v| v.as_str()).map(|x| x.as_str()),
                Some("Tool 'nope' not found")
            );
            assert_eq!(p.get("id"), Some(&num("7")));
        }
        other => panic!("expected a JSON-RPC error reply, got {other:?}"),
    }
    // The session is untouched: content still flows.
    assert!(matches!(q.route_frame(&assistant_frame("still fine")), FrameOutcome::ContentQueued));
}

#[test]
fn known_tool_call_is_handed_out_for_invocation() {
    let server = McpServerInfo {
        name: "calc".to_string(),
        version: "1.0.0".to_string(),
        tools: vec![McpToolInfo::new("add", None, None)],
    };
    let q = Query::new(true, "fffe".to_string(), false, None, vec![server]);
    let request = obj(vec![
        ("subtype", s("mcp_message")),
        ("server_name", s("calc")),
        (
            "message",
            obj(vec![
                ("id", num("3")),
                ("method", s("tools/call")),
                (
                    "params",
                    obj(vec![
                        ("name", s("add")),
                        ("arguments", obj(vec![("a", num("1"))])),
                    ]),
                ),
            ]),
        ),
    ]);
    match q.dispatch_control_request(Some(&request)) {
        DispatchStep::McpToolCall { server, tool, rpc_id, arguments } => {
            assert_eq!(server, "calc");
            assert_eq!(tool, "add");
            assert_eq!(rpc_id, num("3"));
            assert_eq!(arguments, obj(vec![("a", num("1"))]));
        }
        other => panic!("expected a tool call, got {other:?}"),
    }
}

#[test]
fn permission_callback_without_streaming_is_refused_up_front() {
    // Validation fails before anything is spawned.
    match validate_permission_options(true, false, false) {
        Err(e) => assert_eq!(e.message(), "can_use_tool callback requires streaming mode"),
        Ok(_) => panic!("expected the configuration to be refused"),
    }
    match validate_permission_options(true, true, true) {
        Err(e) => assert_eq!(
            e.message(),
            "can_use_tool cannot be used with permission_prompt_tool_name"
        ),
        Ok(_) => panic!("expected the configuration to be refused"),
    }
    match validate_permission_options(true, false, true) {
        Ok(Some(t)) => assert_eq!(t, "stdio"),
        other => panic!("expected the prompt tool to be pinned, got {other:?}"),
    }
    assert!(matches!(validate_permission_options(false, true, false), Ok(None)));
}
