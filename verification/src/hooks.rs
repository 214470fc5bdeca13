//! Hook configuration, typed hook inputs and outputs, and their wire forms.

use vstd::prelude::*;

use crate::error::{MessageParseError, SdkError};
use crate::json::{obj_fields_view, spec_get, JsonV, JsonValue};
use crate::message_parser::{bool_field, get_str};
use vstd::string::StringExecFns;

verus! {

/// Supported hook event names.
#[derive(Debug, Clone, Copy, PartialEq, Eq)]
pub enum HookEvent {
    PreToolUse,
    PostToolUse,
    UserPromptSubmit,
    Stop,
    SubagentStop,
    PreCompact,
}

impl HookEvent {
    pub open spec fn spec_str(&self) -> Seq<char> {
        match self {
            HookEvent::PreToolUse => "PreToolUse"@,
            HookEvent::PostToolUse => "PostToolUse"@,
            HookEvent::UserPromptSubmit => "UserPromptSubmit"@,
            HookEvent::Stop => "Stop"@,
            HookEvent::SubagentStop => "SubagentStop"@,
            HookEvent::PreCompact => "PreCompact"@,
        }
    }

    pub fn as_str(&self) -> (r: &'static str)
        ensures
            r@ == self.spec_str(),
    {
        match self {
            HookEvent::PreToolUse => "PreToolUse",
            HookEvent::PostToolUse => "PostToolUse",
            HookEvent::UserPromptSubmit => "UserPromptSubmit",
            HookEvent::Stop => "Stop",
            HookEvent::SubagentStop => "SubagentStop",
            HookEvent::PreCompact => "PreCompact",
        }
    }
}

/// Base fields common to all hook inputs.
#[derive(Debug)]
pub struct BaseHookInput {
    pub session_id: String,
    pub transcript_path: String,
    pub cwd: String,
    pub permission_mode: Option<String>,
}

/// Input payload for the PreToolUse hook.
#[derive(Debug)]
pub struct PreToolUseHookInput {
    pub tool_name: String,
    pub tool_input: JsonValue,
    pub base: BaseHookInput,
}

/// Input payload for the PostToolUse hook.
#[derive(Debug)]
pub struct PostToolUseHookInput {
    pub tool_name: String,
    pub tool_input: JsonValue,
    pub tool_response: JsonValue,
    pub base: BaseHookInput,
}

/// Input payload for the UserPromptSubmit hook.
#[derive(Debug)]
pub struct UserPromptSubmitHookInput {
    pub prompt: String,
    pub base: BaseHookInput,
}

/// Input payload for the Stop hook.
#[derive(Debug)]
pub struct StopHookInput {
    pub stop_hook_active: bool,
    pub base: BaseHookInput,
}

/// Input payload for the SubagentStop hook.
#[derive(Debug)]
pub struct SubagentStopHookInput {
    pub stop_hook_active: bool,
    pub base: BaseHookInput,
}

/// Input payload for the PreCompact hook.
#[derive(Debug)]
pub struct PreCompactHookInput {
    pub trigger: String,
    pub custom_instructions: Option<String>,
    pub base: BaseHookInput,
}

/// Discriminated union of all hook inputs.
#[derive(Debug)]
pub enum HookInput {
    PreToolUse(PreToolUseHookInput),
    PostToolUse(PostToolUseHookInput),
    UserPromptSubmit(UserPromptSubmitHookInput),
    Stop(StopHookInput),
    SubagentStop(SubagentStopHookInput),
    PreCompact(PreCompactHookInput),
}

/// An optional string field: a string value when present as one, nothing
/// otherwise.
pub open spec fn opt_str_field(v: JsonV, key: Seq<char>) -> Option<Seq<char>> {
    get_str(v, key)
}

pub open spec fn base_parses(v: JsonV) -> bool {
    &&& get_str(v, "sessionId"@) is Some
    &&& get_str(v, "transcriptPath"@) is Some
    &&& get_str(v, "cwd"@) is Some
}

pub open spec fn base_of(v: JsonV, b: BaseHookInput) -> bool {
    &&& get_str(v, "sessionId"@) == Some(b.session_id@)
    &&& get_str(v, "transcriptPath"@) == Some(b.transcript_path@)
    &&& get_str(v, "cwd"@) == Some(b.cwd@)
    &&& crate::message_parser::opt_str_matches(b.permission_mode, opt_str_field(v, "permissionMode"@))
}

/// Exactly which payloads decode to a typed hook input.
pub open spec fn hook_input_parses(v: JsonV) -> bool {
    &&& v is Obj
    &&& base_parses(v)
    &&& match get_str(v, "hookEventName"@) {
        Some(t) => if t == "PreToolUse"@ {
            &&& get_str(v, "toolName"@) is Some
            &&& spec_get(v, "toolInput"@) matches Some(inp) && inp is Obj
        } else if t == "PostToolUse"@ {
            &&& get_str(v, "toolName"@) is Some
            &&& spec_get(v, "toolInput"@) matches Some(inp) && inp is Obj
            &&& spec_get(v, "toolResponse"@) is Some
        } else if t == "UserPromptSubmit"@ {
            get_str(v, "prompt"@) is Some
        } else if t == "Stop"@ || t == "SubagentStop"@ {
            bool_field(v, "stopHookActive"@) is Some
        } else if t == "PreCompact"@ {
            get_str(v, "trigger"@) is Some
        } else {
            false
        },
        None => false,
    }
}

/// How a decoded hook input relates to its payload.
pub open spec fn hook_input_of(v: JsonV, h: HookInput) -> bool {
    match h {
        HookInput::PreToolUse(i) => {
            &&& get_str(v, "hookEventName"@) == Some("PreToolUse"@)
            &&& get_str(v, "toolName"@) == Some(i.tool_name@)
            &&& spec_get(v, "toolInput"@) == Some(i.tool_input@) && i.tool_input@ is Obj
            &&& base_of(v, i.base)
        },
        HookInput::PostToolUse(i) => {
            &&& get_str(v, "hookEventName"@) == Some("PostToolUse"@)
            &&& get_str(v, "toolName"@) == Some(i.tool_name@)
            &&& spec_get(v, "toolInput"@) == Some(i.tool_input@) && i.tool_input@ is Obj
            &&& spec_get(v, "toolResponse"@) == Some(i.tool_response@)
            &&& base_of(v, i.base)
        },
        HookInput::UserPromptSubmit(i) => {
            &&& get_str(v, "hookEventName"@) == Some("UserPromptSubmit"@)
            &&& get_str(v, "prompt"@) == Some(i.prompt@)
            &&& base_of(v, i.base)
        },
        HookInput::Stop(i) => {
            &&& get_str(v, "hookEventName"@) == Some("Stop"@)
            &&& bool_field(v, "stopHookActive"@) == Some(i.stop_hook_active)
            &&& base_of(v, i.base)
        },
        HookInput::SubagentStop(i) => {
            &&& get_str(v, "hookEventName"@) == Some("SubagentStop"@)
            &&& bool_field(v, "stopHookActive"@) == Some(i.stop_hook_active)
            &&& base_of(v, i.base)
        },
        HookInput::PreCompact(i) => {
            &&& get_str(v, "hookEventName"@) == Some("PreCompact"@)
            &&& get_str(v, "trigger"@) == Some(i.trigger@)
            &&& crate::message_parser::opt_str_matches(
                i.custom_instructions,
                opt_str_field(v, "customInstructions"@),
            )
            &&& base_of(v, i.base)
        },
    }
}

fn get_string_field(v: &JsonValue, key: &str) -> (r: Option<String>)
    ensures
        match r {
            Some(s) => get_str(v@, key@) == Some(s@),
            None => get_str(v@, key@) is None,
        },
{
    match v.get(key) {
        Some(x) => match x.as_str() {
            Some(s) => Some(s.clone()),
            None => None,
        },
        None => None,
    }
}

fn parse_base(v: &JsonValue) -> (r: Result<BaseHookInput, SdkError>)
    ensures
        match r {
            Ok(b) => base_of(v@, b) && base_parses(v@),
            Err(e) => !base_parses(v@) && e is MessageParse,
        },
{
    let session_id = match get_string_field(v, "sessionId") {
        Some(s) => s,
        None => {
            return Err(hook_err("hook input missing sessionId", v));
        },
    };
    let transcript_path = match get_string_field(v, "transcriptPath") {
        Some(s) => s,
        None => {
            return Err(hook_err("hook input missing transcriptPath", v));
        },
    };
    let cwd = match get_string_field(v, "cwd") {
        Some(s) => s,
        None => {
            return Err(hook_err("hook input missing cwd", v));
        },
    };
    let permission_mode = get_string_field(v, "permissionMode");
    Ok(BaseHookInput { session_id, transcript_path, cwd, permission_mode })
}

fn hook_err(text: &str, v: &JsonValue) -> (r: SdkError)
    ensures
        r is MessageParse,
{
    SdkError::MessageParse(MessageParseError::new(String::from_str(text), Some(v.deep_clone())))
}

/// Decodes the event-specific typed input of a hook callback invocation.
///
/// Succeeds exactly on the payloads accepted by [`hook_input_parses`]; the
/// produced input satisfies [`hook_input_of`].
pub fn hook_input_from_json(v: &JsonValue) -> (r: Result<HookInput, SdkError>)
    ensures
        match r {
            Ok(h) => hook_input_parses(v@) && hook_input_of(v@, h),
            Err(e) => !hook_input_parses(v@) && e is MessageParse,
        },
{
    if !v.is_object() {
        return Err(hook_err("hook input must be an object", v));
    }
    let event = match get_string_field(v, "hookEventName") {
        Some(s) => s,
        None => {
            return Err(hook_err("hook input missing hookEventName", v));
        },
    };
    let base = match parse_base(v) {
        Ok(b) => b,
        Err(e) => {
            return Err(e);
        },
    };
    if crate::text::str_eq(event.as_str(), "PreToolUse") {
        let tool_name = match get_string_field(v, "toolName") {
            Some(s) => s,
            None => {
                return Err(hook_err("hook input missing toolName", v));
            },
        };
        let tool_input = match v.get("toolInput") {
            Some(x) => {
                if x.is_object() {
                    x.deep_clone()
                } else {
                    return Err(hook_err("hook input toolInput must be an object", v));
                }
            },
            None => {
                return Err(hook_err("hook input missing toolInput", v));
            },
        };
        Ok(HookInput::PreToolUse(PreToolUseHookInput { tool_name, tool_input, base }))
    } else if crate::text::str_eq(event.as_str(), "PostToolUse") {
        let tool_name = match get_string_field(v, "toolName") {
            Some(s) => s,
            None => {
                return Err(hook_err("hook input missing toolName", v));
            },
        };
        let tool_input = match v.get("toolInput") {
            Some(x) => {
                if x.is_object() {
                    x.deep_clone()
                } else {
                    return Err(hook_err("hook input toolInput must be an object", v));
                }
            },
            None => {
                return Err(hook_err("hook input missing toolInput", v));
            },
        };
        let tool_response = match v.get("toolResponse") {
            Some(x) => x.deep_clone(),
            None => {
                return Err(hook_err("hook input missing toolResponse", v));
            },
        };
        Ok(
            HookInput::PostToolUse(
                PostToolUseHookInput { tool_name, tool_input, tool_response, base },
            ),
        )
    } else if crate::text::str_eq(event.as_str(), "UserPromptSubmit") {
        let prompt = match get_string_field(v, "prompt") {
            Some(s) => s,
            None => {
                return Err(hook_err("hook input missing prompt", v));
            },
        };
        Ok(HookInput::UserPromptSubmit(UserPromptSubmitHookInput { prompt, base }))
    } else if crate::text::str_eq(event.as_str(), "Stop") {
        let stop_hook_active = match v.get("stopHookActive") {
            Some(x) => match x.as_bool() {
                Some(b) => b,
                None => {
                    return Err(hook_err("hook input missing stopHookActive", v));
                },
            },
            None => {
                return Err(hook_err("hook input missing stopHookActive", v));
            },
        };
        Ok(HookInput::Stop(StopHookInput { stop_hook_active, base }))
    } else if crate::text::str_eq(event.as_str(), "SubagentStop") {
        let stop_hook_active = match v.get("stopHookActive") {
            Some(x) => match x.as_bool() {
                Some(b) => b,
                None => {
                    return Err(hook_err("hook input missing stopHookActive", v));
                },
            },
            None => {
                return Err(hook_err("hook input missing stopHookActive", v));
            },
        };
        Ok(HookInput::SubagentStop(SubagentStopHookInput { stop_hook_active, base }))
    } else if crate::text::str_eq(event.as_str(), "PreCompact") {
        let trigger = match get_string_field(v, "trigger") {
            Some(s) => s,
            None => {
                return Err(hook_err("hook input missing trigger", v));
            },
        };
        let custom_instructions = get_string_field(v, "customInstructions");
        Ok(HookInput::PreCompact(PreCompactHookInput { trigger, custom_instructions, base }))
    } else {
        Err(hook_err("unknown hook event name", v))
    }
}

/// Hook-specific control output for PreToolUse events.
#[derive(Debug)]
pub struct PreToolUseHookSpecificOutput {
    pub permission_decision: Option<String>,
    pub permission_decision_reason: Option<String>,
    pub updated_input: Option<JsonValue>,
}

/// Hook-specific control output for PostToolUse events.
#[derive(Debug)]
pub struct PostToolUseHookSpecificOutput {
    pub additional_context: Option<String>,
}

/// Hook-specific control output for UserPromptSubmit events.
#[derive(Debug)]
pub struct UserPromptSubmitHookSpecificOutput {
    pub additional_context: Option<String>,
}

/// Hook-specific output union.
#[derive(Debug)]
pub enum HookSpecificOutput {
    PreToolUse(PreToolUseHookSpecificOutput),
    PostToolUse(PostToolUseHookSpecificOutput),
    UserPromptSubmit(UserPromptSubmitHookSpecificOutput),
}

/// Asynchronous hook response that defers execution.
#[derive(Debug)]
pub struct AsyncHookJsonOutput {
    pub is_async: bool,
    pub async_timeout: Option<u64>,
}

/// Synchronous hook response payload.
#[derive(Debug)]
pub struct SyncHookJsonOutput {
    pub should_continue: Option<bool>,
    pub suppress_output: Option<bool>,
    pub stop_reason: Option<String>,
    pub decision: Option<String>,
    pub system_message: Option<String>,
    pub reason: Option<String>,
    pub hook_specific_output: Option<HookSpecificOutput>,
}

/// Union of hook JSON outputs.
#[derive(Debug)]
pub enum HookJsonOutput {
    Async(AsyncHookJsonOutput),
    Sync(SyncHookJsonOutput),
}

/// Additional context passed to hook callbacks.
#[derive(Debug)]
pub struct HookContext {
    pub signal: Option<JsonValue>,
}

/// Configuration binding one matcher description to a number of callback
/// slots; the callbacks themselves are registered by the embedding program.
#[derive(Debug)]
pub struct HookMatcher {
    pub matcher: Option<JsonValue>,
    /// How many callbacks this matcher carries.
    pub hook_count: usize,
}

impl HookMatcher {
    pub fn new(matcher: Option<JsonValue>) -> (r: HookMatcher)
        ensures
            r.matcher == matcher,
            r.hook_count == 0,
    {
        HookMatcher { matcher, hook_count: 0 }
    }
}

/// The wire fields of a hook-specific output, tagged by its event name.
pub open spec fn spec_specific_output_fields(o: HookSpecificOutput) -> Seq<(Seq<char>, JsonV)> {
    match o {
        HookSpecificOutput::PreToolUse(p) => {
            let fs = seq![("hookEventName"@, JsonV::Str("PreToolUse"@))];
            let fs = match p.permission_decision {
                Some(s) => fs.push(("permissionDecision"@, JsonV::Str(s@))),
                None => fs,
            };
            let fs = match p.permission_decision_reason {
                Some(s) => fs.push(("permissionDecisionReason"@, JsonV::Str(s@))),
                None => fs,
            };
            match p.updated_input {
                Some(u) => fs.push(("updatedInput"@, u@)),
                None => fs,
            }
        },
        HookSpecificOutput::PostToolUse(p) => {
            let fs = seq![("hookEventName"@, JsonV::Str("PostToolUse"@))];
            match p.additional_context {
                Some(s) => fs.push(("additionalContext"@, JsonV::Str(s@))),
                None => fs,
            }
        },
        HookSpecificOutput::UserPromptSubmit(p) => {
            let fs = seq![("hookEventName"@, JsonV::Str("UserPromptSubmit"@))];
            match p.additional_context {
                Some(s) => fs.push(("additionalContext"@, JsonV::Str(s@))),
                None => fs,
            }
        },
    }
}

/// The wire fields of a hook output. The two field names that collide with
/// reserved words are written with their wire spellings here.
pub open spec fn spec_hook_output_fields(o: HookJsonOutput) -> Seq<(Seq<char>, JsonV)> {
    match o {
        HookJsonOutput::Async(a) => {
            let fs = seq![("async"@, JsonV::Bool(a.is_async))];
            match a.async_timeout {
                Some(n) => fs.push(
                    ("asyncTimeout"@, JsonV::Num(crate::text::int_lexeme(n as int))),
                ),
                None => fs,
            }
        },
        HookJsonOutput::Sync(s) => {
            let fs = Seq::<(Seq<char>, JsonV)>::empty();
            let fs = match s.should_continue {
                Some(b) => fs.push(("continue"@, JsonV::Bool(b))),
                None => fs,
            };
            let fs = match s.suppress_output {
                Some(b) => fs.push(("suppressOutput"@, JsonV::Bool(b))),
                None => fs,
            };
            let fs = match s.stop_reason {
                Some(x) => fs.push(("stopReason"@, JsonV::Str(x@))),
                None => fs,
            };
            let fs = match s.decision {
                Some(x) => fs.push(("decision"@, JsonV::Str(x@))),
                None => fs,
            };
            let fs = match s.system_message {
                Some(x) => fs.push(("systemMessage"@, JsonV::Str(x@))),
                None => fs,
            };
            let fs = match s.reason {
                Some(x) => fs.push(("reason"@, JsonV::Str(x@))),
                None => fs,
            };
            match s.hook_specific_output {
                Some(h) => fs.push(
                    ("hookSpecificOutput"@, JsonV::Obj(spec_specific_output_fields(h))),
                ),
                None => fs,
            }
        },
    }
}

pub open spec fn spec_hook_output_payload(o: HookJsonOutput) -> JsonV {
    JsonV::Obj(spec_hook_output_fields(o))
}

/// Renders a hook output as its wire object.
pub fn hook_output_to_json(o: &HookJsonOutput) -> (r: JsonValue)
    ensures
        r@ == spec_hook_output_payload(*o),
{
    let mut fields: Vec<(String, JsonValue)> = Vec::new();
    match o {
        HookJsonOutput::Async(a) => {
            fields.push((String::from_str("async"), JsonValue::Bool(a.is_async)));
            if let Some(n) = a.async_timeout {
                fields.push(
                    (
                        String::from_str("asyncTimeout"),
                        JsonValue::Num(crate::text::u64_to_string(n)),
                    ),
                );
            }
        },
        HookJsonOutput::Sync(s) => {
            if let Some(b) = s.should_continue {
                fields.push((String::from_str("continue"), JsonValue::Bool(b)));
            }
            if let Some(b) = s.suppress_output {
                fields.push((String::from_str("suppressOutput"), JsonValue::Bool(b)));
            }
            if let Some(x) = &s.stop_reason {
                fields.push((String::from_str("stopReason"), JsonValue::Str(x.clone())));
            }
            if let Some(x) = &s.decision {
                fields.push((String::from_str("decision"), JsonValue::Str(x.clone())));
            }
            if let Some(x) = &s.system_message {
                fields.push((String::from_str("systemMessage"), JsonValue::Str(x.clone())));
            }
            if let Some(x) = &s.reason {
                fields.push((String::from_str("reason"), JsonValue::Str(x.clone())));
            }
            if let Some(h) = &s.hook_specific_output {
                let mut hf: Vec<(String, JsonValue)> = Vec::new();
                match h {
                    HookSpecificOutput::PreToolUse(p) => {
                        hf.push(
                            (
                                String::from_str("hookEventName"),
                                JsonValue::Str(String::from_str("PreToolUse")),
                            ),
                        );
                        if let Some(x) = &p.permission_decision {
                            hf.push(
                                (String::from_str("permissionDecision"), JsonValue::Str(x.clone())),
                            );
                        }
                        if let Some(x) = &p.permission_decision_reason {
                            hf.push(
                                (
                                    String::from_str("permissionDecisionReason"),
                                    JsonValue::Str(x.clone()),
                                ),
                            );
                        }
                        if let Some(u) = &p.updated_input {
                            hf.push((String::from_str("updatedInput"), u.deep_clone()));
                        }
                    },
                    HookSpecificOutput::PostToolUse(p) => {
                        hf.push(
                            (
                                String::from_str("hookEventName"),
                                JsonValue::Str(String::from_str("PostToolUse")),
                            ),
                        );
                        if let Some(x) = &p.additional_context {
                            hf.push(
                                (String::from_str("additionalContext"), JsonValue::Str(x.clone())),
                            );
                        }
                    },
                    HookSpecificOutput::UserPromptSubmit(p) => {
                        hf.push(
                            (
                                String::from_str("hookEventName"),
                                JsonValue::Str(String::from_str("UserPromptSubmit")),
                            ),
                        );
                        if let Some(x) = &p.additional_context {
                            hf.push(
                                (String::from_str("additionalContext"), JsonValue::Str(x.clone())),
                            );
                        }
                    },
                }
                let ghost hfv = hf@;
                let hj = JsonValue::Obj(hf);
                proof {
                    crate::json::lemma_obj_fields_view(hfv);
                    assert forall|z: int| 0 <= z < hfv.len() implies obj_fields_view(hfv)[z] == (
                        fv_pair(hfv, z).0,
                        fv_pair(hfv, z).1,
                    ) by {
                        assert(obj_fields_view(hfv)[z] == ((#[trigger] hfv[z]).0@, hfv[z].1@));
                    }
                    assert(obj_fields_view(hfv) =~~= spec_specific_output_fields(
                        s.hook_specific_output->Some_0,
                    ));
                }
                fields.push((String::from_str("hookSpecificOutput"), hj));
            }
        },
    }
    let ghost fv = fields@;
    let out = JsonValue::Obj(fields);
    proof {
        crate::json::lemma_obj_fields_view(fv);
        assert forall|z: int| 0 <= z < fv.len() implies obj_fields_view(fv)[z] == (
            fv_pair(fv, z).0,
            fv_pair(fv, z).1,
        ) by {
            assert(obj_fields_view(fv)[z] == ((#[trigger] fv[z]).0@, fv[z].1@));
        }
        assert(obj_fields_view(fv) =~~= spec_hook_output_fields(*o));
        assert(out@ == spec_hook_output_payload(*o));
    }
    out
}

/// The pair of views at one index of a field list.
pub open spec fn fv_pair(fv: Seq<(String, JsonValue)>, z: int) -> (Seq<char>, JsonV) {
    (fv[z].0@, fv[z].1@)
}

/// The wire spelling of a hook output key: the two names that collide with
/// reserved words lose their trailing underscore; all others pass through.
pub open spec fn rename_key(k: Seq<char>) -> Seq<char> {
    if k == "async_"@ {
        "async"@
    } else if k == "continue_"@ {
        "continue"@
    } else {
        k
    }
}

/// Key renaming applied recursively through a value.
pub open spec fn rename_for_cli(v: JsonV) -> JsonV
    decreases v, 1int,
    via rename_for_cli_decreases
{
    match v {
        JsonV::Obj(fs) => JsonV::Obj(rename_fields(fs)),
        JsonV::Arr(es) => JsonV::Arr(rename_items(es)),
        other => other,
    }
}

pub open spec fn rename_items(es: Seq<JsonV>) -> Seq<JsonV>
    decreases es, 2int,
    via rename_items_decreases
{
    if es.len() == 0 {
        Seq::empty()
    } else {
        seq![rename_for_cli(es.first())] + rename_items(es.drop_first())
    }
}

pub open spec fn rename_fields(fs: Seq<(Seq<char>, JsonV)>) -> Seq<(Seq<char>, JsonV)>
    decreases fs, 2int,
    via rename_fields_decreases
{
    if fs.len() == 0 {
        Seq::empty()
    } else {
        seq![(rename_key(fs.first().0), rename_for_cli(fs.first().1))] + rename_fields(
            fs.drop_first(),
        )
    }
}

#[via_fn]
proof fn rename_for_cli_decreases(v: JsonV) {
    match v {
        JsonV::Obj(fs) => {
            assert(decreases_to!(v => fs));
        },
        JsonV::Arr(es) => {
            assert(decreases_to!(v => es));
        },
        _ => {},
    }
}

#[via_fn]
proof fn rename_items_decreases(es: Seq<JsonV>) {
    if es.len() > 0 {
        vstd::seq::axiom_seq_index_decreases(es, 0);
        vstd::seq::axiom_seq_subrange_decreases(es, 1, es.len() as int);
    }
}

#[via_fn]
proof fn rename_fields_decreases(fs: Seq<(Seq<char>, JsonV)>) {
    if fs.len() > 0 {
        vstd::seq::axiom_seq_index_decreases(fs, 0);
        assert(decreases_to!(fs[0] => fs[0].1));
        vstd::seq::axiom_seq_subrange_decreases(fs, 1, fs.len() as int);
    }
}

/// Pointwise reading of [`rename_items`].
pub proof fn lemma_rename_items(es: Seq<JsonV>)
    ensures
        rename_items(es).len() == es.len(),
        forall|i: int|
            0 <= i < es.len() ==> rename_items(es)[i] == rename_for_cli(#[trigger] es[i]),
    decreases es.len(),
{
    if es.len() > 0 {
        lemma_rename_items(es.drop_first());
        assert forall|i: int| 0 <= i < es.len() implies rename_items(es)[i] == rename_for_cli(
            #[trigger] es[i],
        ) by {
            if i == 0 {
                assert(rename_items(es)[0] == rename_for_cli(es.first()));
            } else {
                assert(rename_items(es)[i] == rename_items(es.drop_first())[i - 1]);
                assert(es.drop_first()[i - 1] == es[i]);
            }
        }
    }
}

/// Pointwise reading of [`rename_fields`].
pub proof fn lemma_rename_fields(fs: Seq<(Seq<char>, JsonV)>)
    ensures
        rename_fields(fs).len() == fs.len(),
        forall|i: int|
            0 <= i < fs.len() ==> rename_fields(fs)[i] == (
                rename_key((#[trigger] fs[i]).0),
                rename_for_cli(fs[i].1),
            ),
    decreases fs.len(),
{
    if fs.len() > 0 {
        lemma_rename_fields(fs.drop_first());
        assert forall|i: int| 0 <= i < fs.len() implies rename_fields(fs)[i] == (
            rename_key((#[trigger] fs[i]).0),
            rename_for_cli(fs[i].1),
        ) by {
            if i == 0 {
                assert(rename_fields(fs)[0] == (
                    rename_key(fs.first().0),
                    rename_for_cli(fs.first().1),
                ));
            } else {
                assert(rename_fields(fs)[i] == rename_fields(fs.drop_first())[i - 1]);
                assert(fs.drop_first()[i - 1] == fs[i]);
            }
        }
    }
}

fn rename_key_exec(k: &String) -> (r: String)
    ensures
        r@ == rename_key(k@),
{
    if crate::text::str_eq(k.as_str(), "async_") {
        String::from_str("async")
    } else if crate::text::str_eq(k.as_str(), "continue_") {
        String::from_str("continue")
    } else {
        k.clone()
    }
}

/// Applies the reserved-word key substitutions recursively through a value.
#[verifier::loop_isolation(false)]
pub fn convert_hook_output_for_cli(value: &JsonValue) -> (r: JsonValue)
    ensures
        r@ == rename_for_cli(value@),
    decreases value,
{
    match value {
        JsonValue::Obj(fs) => {
            let ghost fsv = obj_fields_view(fs@);
            proof {
                crate::json::lemma_obj_fields_view(fs@);
                lemma_rename_fields(fsv);
            }
            let mut out: Vec<(String, JsonValue)> = Vec::new();
            let mut i: usize = 0;
            while i < fs.len()
                invariant
                    i <= fs@.len(),
                    out@.len() == i,
                    forall|q: int|
                        0 <= q < i ==> (#[trigger] out@[q]).0@ == rename_key(fsv[q].0)
                            && out@[q].1@ == rename_for_cli(fsv[q].1),
                decreases fs@.len() - i,
            {
                let pair = &fs[i];
                proof {
                    assert(decreases_to!(*value => *fs));
                    assert(decreases_to!(*fs => fs@));
                    assert(decreases_to!(fs@ => fs@[i as int]));
                    assert(decreases_to!(fs@[i as int] => fs@[i as int].1));
                    assert(fsv[i as int] == (fs@[i as int].0@, fs@[i as int].1@));
                }
                let nk = rename_key_exec(&pair.0);
                let nv = convert_hook_output_for_cli(&pair.1);
                out.push((nk, nv));
                i = i + 1;
            }
            let ghost ov = out@;
            let result = JsonValue::Obj(out);
            proof {
                crate::json::lemma_obj_fields_view(ov);
                assert forall|z: int| 0 <= z < ov.len() implies obj_fields_view(ov)[z]
                    == rename_fields(fsv)[z] by {
                    assert(obj_fields_view(ov)[z] == ((#[trigger] ov[z]).0@, ov[z].1@));
                }
                assert(obj_fields_view(ov) =~~= rename_fields(fsv));
            }
            result
        },
        JsonValue::Arr(es) => {
            let ghost esv = crate::json::arr_view(es@);
            proof {
                crate::json::lemma_arr_view(es@);
                lemma_rename_items(esv);
            }
            let mut out: Vec<JsonValue> = Vec::new();
            let mut i: usize = 0;
            while i < es.len()
                invariant
                    i <= es@.len(),
                    out@.len() == i,
                    forall|q: int| 0 <= q < i ==> (#[trigger] out@[q])@ == rename_for_cli(esv[q]),
                decreases es@.len() - i,
            {
                proof {
                    assert(decreases_to!(*value => *es));
                    assert(decreases_to!(*es => es@));
                    assert(decreases_to!(es@ => es@[i as int]));
                    assert(esv[i as int] == es@[i as int]@);
                }
                let nv = convert_hook_output_for_cli(&es[i]);
                out.push(nv);
                i = i + 1;
            }
            let ghost ov = out@;
            let result = JsonValue::Arr(out);
            proof {
                crate::json::lemma_arr_view(ov);
                assert forall|z: int| 0 <= z < ov.len() implies crate::json::arr_view(ov)[z]
                    == rename_items(esv)[z] by {
                    assert(crate::json::arr_view(ov)[z] == (#[trigger] ov[z])@);
                }
                assert(crate::json::arr_view(ov) =~~= rename_items(esv));
            }
            result
        },
        other => other.deep_clone(),
    }
}

} // verus!
