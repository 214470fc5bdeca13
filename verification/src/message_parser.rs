//! Interprets decoded content frames as typed messages.
//!
//! The `*_parses` functions say exactly which frames are accepted; the
//! `*_of` relations pin every field of the produced message to its source
//! field in the frame.

use vstd::prelude::*;

use crate::error::{MessageParseError, SdkError};
use crate::json::{arr_view, spec_as_i64, spec_get, JsonV, JsonValue};
use crate::message::{
    AssistantMessage, ContentBlock, Message, ResultMessage, StreamEvent, SystemMessage,
    TextBlock, ThinkingBlock, ToolResultBlock, ToolUseBlock, UserMessage, UserMessageContent,
};
use crate::text::str_eq;
use vstd::string::StringExecFns;

verus! {

pub open spec fn jv_as_str(v: JsonV) -> Option<Seq<char>> {
    match v {
        JsonV::Str(s) => Some(s),
        _ => None,
    }
}

/// A string field of an object, when present with a string value.
pub open spec fn get_str(raw: JsonV, key: Seq<char>) -> Option<Seq<char>> {
    match spec_get(raw, key) {
        Some(v) => jv_as_str(v),
        None => None,
    }
}

/// An integral field of an object, when present with an integral value.
pub open spec fn i64_field(raw: JsonV, key: Seq<char>) -> Option<int> {
    match spec_get(raw, key) {
        Some(v) => spec_as_i64(v),
        None => None,
    }
}

/// A boolean field of an object, when present with a boolean value.
pub open spec fn bool_field(raw: JsonV, key: Seq<char>) -> Option<bool> {
    match spec_get(raw, key) {
        Some(JsonV::Bool(b)) => Some(b),
        _ => None,
    }
}

/// The parent tool-use id, read from either accepted key spelling.
pub open spec fn parent_id_of(raw: JsonV) -> Option<Seq<char>> {
    match spec_get(raw, "parent_tool_use_id"@) {
        Some(v) => jv_as_str(v),
        None => match spec_get(raw, "parentToolUseId"@) {
            Some(v) => jv_as_str(v),
            None => None,
        },
    }
}

/// The tool-use id of a tool result block, from either accepted spelling.
pub open spec fn tool_use_id_of(b: JsonV) -> Option<Seq<char>> {
    match spec_get(b, "tool_use_id"@) {
        Some(v) => jv_as_str(v),
        None => match spec_get(b, "toolUseId"@) {
            Some(v) => jv_as_str(v),
            None => None,
        },
    }
}

/// A field looked up inside the nested `message` object when that exists,
/// falling back to the top level of the frame.
pub open spec fn nested_source(raw: JsonV, key: Seq<char>) -> Option<JsonV> {
    match spec_get(raw, "message"@) {
        Some(m) => if m is Obj {
            match spec_get(m, key) {
                Some(c) => Some(c),
                None => spec_get(raw, key),
            }
        } else {
            spec_get(raw, key)
        },
        None => spec_get(raw, key),
    }
}

pub open spec fn opt_str_matches(o: Option<String>, s: Option<Seq<char>>) -> bool {
    match o {
        Some(a) => s == Some(a@),
        None => s is None,
    }
}

pub open spec fn block_parses(b: JsonV) -> bool {
    match get_str(b, "type"@) {
        Some(t) => if t == "text"@ {
            get_str(b, "text"@) is Some
        } else if t == "thinking"@ {
            get_str(b, "thinking"@) is Some && get_str(b, "signature"@) is Some
        } else if t == "tool_use"@ {
            &&& get_str(b, "id"@) is Some
            &&& get_str(b, "name"@) is Some
            &&& spec_get(b, "input"@) matches Some(inp) && inp is Obj
        } else if t == "tool_result"@ {
            tool_use_id_of(b) is Some
        } else {
            false
        },
        None => false,
    }
}

pub open spec fn block_of(b: JsonV, c: ContentBlock) -> bool {
    match c {
        ContentBlock::Text(tb) => {
            &&& get_str(b, "type"@) == Some("text"@)
            &&& get_str(b, "text"@) == Some(tb.text@)
        },
        ContentBlock::Thinking(tb) => {
            &&& get_str(b, "type"@) == Some("thinking"@)
            &&& get_str(b, "thinking"@) == Some(tb.thinking@)
            &&& get_str(b, "signature"@) == Some(tb.signature@)
        },
        ContentBlock::ToolUse(tb) => {
            &&& get_str(b, "type"@) == Some("tool_use"@)
            &&& get_str(b, "id"@) == Some(tb.id@)
            &&& get_str(b, "name"@) == Some(tb.name@)
            &&& spec_get(b, "input"@) == Some(tb.input@)
            &&& tb.input@ is Obj
        },
        ContentBlock::ToolResult(tb) => {
            &&& get_str(b, "type"@) == Some("tool_result"@)
            &&& tool_use_id_of(b) == Some(tb.tool_use_id@)
            &&& match spec_get(b, "content"@) {
                Some(cv) => tb.content matches Some(held) && held@ == cv,
                None => tb.content is None,
            }
            &&& tb.is_error == bool_field(b, "is_error"@)
        },
    }
}

pub open spec fn blocks_parse(elems: Seq<JsonV>) -> bool {
    forall|i: int| 0 <= i < elems.len() ==> block_parses(#[trigger] elems[i])
}

pub open spec fn blocks_of(elems: Seq<JsonV>, cs: Seq<ContentBlock>) -> bool {
    &&& cs.len() == elems.len()
    &&& forall|i: int| 0 <= i < elems.len() ==> block_of(#[trigger] elems[i], cs[i])
}

proof fn lemma_block_of_parses(b: JsonV, c: ContentBlock)
    requires
        block_of(b, c),
    ensures
        block_parses(b),
{
    reveal_strlit("text");
    reveal_strlit("thinking");
    reveal_strlit("tool_use");
    reveal_strlit("tool_result");
    match c {
        ContentBlock::Text(tb) => {
            assert(get_str(b, "type"@) == Some("text"@));
            assert(block_parses(b));
        },
        ContentBlock::Thinking(tb) => {
            assert("thinking"@.len() == 8 && "text"@.len() == 4);
            assert("thinking"@ != "text"@);
            assert(block_parses(b));
        },
        ContentBlock::ToolUse(tb) => {
            assert("tool_use"@.len() == 8 && "text"@.len() == 4);
            assert("tool_use"@ != "text"@);
            assert("tool_use"@[1] == 'o' && "thinking"@[1] == 'h');
            assert("tool_use"@ != "thinking"@);
            assert(block_parses(b));
        },
        ContentBlock::ToolResult(tb) => {
            assert("tool_result"@.len() == 11 && "text"@.len() == 4 && "thinking"@.len() == 8
                && "tool_use"@.len() == 8);
            assert("tool_result"@ != "text"@ && "tool_result"@ != "thinking"@
                && "tool_result"@ != "tool_use"@);
            assert(block_parses(b));
        },
    }
}

pub open spec fn user_parses(raw: JsonV) -> bool {
    match nested_source(raw, "content"@) {
        Some(JsonV::Str(_)) => true,
        Some(JsonV::Arr(elems)) => blocks_parse(elems),
        _ => false,
    }
}

pub open spec fn user_of(raw: JsonV, m: UserMessage) -> bool {
    &&& match nested_source(raw, "content"@) {
        Some(JsonV::Str(t)) => m.content matches UserMessageContent::Text(s) && s@ == t,
        Some(JsonV::Arr(elems)) => m.content matches UserMessageContent::Blocks(cs)
            && blocks_of(elems, cs@),
        _ => false,
    }
    &&& opt_str_matches(m.parent_tool_use_id, parent_id_of(raw))
}

pub open spec fn assistant_parses(raw: JsonV) -> bool {
    &&& nested_source(raw, "content"@) matches Some(cv) && cv matches JsonV::Arr(elems)
        && blocks_parse(elems)
    &&& nested_source(raw, "model"@) matches Some(mv) && mv is Str
}

pub open spec fn assistant_of(raw: JsonV, m: AssistantMessage) -> bool {
    &&& nested_source(raw, "content"@) matches Some(cv) && cv matches JsonV::Arr(elems)
        && blocks_of(elems, m.content@)
    &&& nested_source(raw, "model"@) matches Some(mv) && jv_as_str(mv) == Some(m.model@)
    &&& opt_str_matches(m.parent_tool_use_id, parent_id_of(raw))
}

pub open spec fn system_parses(raw: JsonV) -> bool {
    get_str(raw, "subtype"@) is Some
}

pub open spec fn system_of(raw: JsonV, m: SystemMessage) -> bool {
    &&& get_str(raw, "subtype"@) == Some(m.subtype@)
    &&& m.data@ == raw
}

pub open spec fn result_parses(raw: JsonV) -> bool {
    &&& get_str(raw, "subtype"@) is Some
    &&& i64_field(raw, "duration_ms"@) is Some
    &&& i64_field(raw, "duration_api_ms"@) is Some
    &&& bool_field(raw, "is_error"@) is Some
    &&& i64_field(raw, "num_turns"@) is Some
    &&& get_str(raw, "session_id"@) is Some
}

pub open spec fn result_of(raw: JsonV, m: ResultMessage) -> bool {
    &&& get_str(raw, "subtype"@) == Some(m.subtype@)
    &&& i64_field(raw, "duration_ms"@) == Some(m.duration_ms as int)
    &&& i64_field(raw, "duration_api_ms"@) == Some(m.duration_api_ms as int)
    &&& bool_field(raw, "is_error"@) == Some(m.is_error)
    &&& i64_field(raw, "num_turns"@) == Some(m.num_turns as int)
    &&& get_str(raw, "session_id"@) == Some(m.session_id@)
    &&& match spec_get(raw, "total_cost_usd"@) {
        Some(v) => if v is Num {
            m.total_cost_usd matches Some(c) && c@ == v
        } else {
            m.total_cost_usd is None
        },
        None => m.total_cost_usd is None,
    }
    &&& match spec_get(raw, "usage"@) {
        Some(v) => if v is Obj {
            m.usage matches Some(u) && u@ == v
        } else {
            m.usage is None
        },
        None => m.usage is None,
    }
    &&& opt_str_matches(m.result, get_str(raw, "result"@))
}

pub open spec fn stream_parses(raw: JsonV) -> bool {
    &&& get_str(raw, "uuid"@) is Some
    &&& get_str(raw, "session_id"@) is Some
    &&& spec_get(raw, "event"@) is Some
}

pub open spec fn stream_of(raw: JsonV, m: StreamEvent) -> bool {
    &&& get_str(raw, "uuid"@) == Some(m.uuid@)
    &&& get_str(raw, "session_id"@) == Some(m.session_id@)
    &&& spec_get(raw, "event"@) == Some(m.event@)
    &&& opt_str_matches(m.parent_tool_use_id, parent_id_of(raw))
}

pub open spec fn known_message_type(t: Seq<char>) -> bool {
    t == "user"@ || t == "assistant"@ || t == "system"@ || t == "result"@ || t
        == "stream_event"@
}

/// Exactly which frames decode to a typed message.
pub open spec fn message_parses(raw: JsonV) -> bool {
    &&& raw is Obj
    &&& match get_str(raw, "type"@) {
        Some(t) => if t == "user"@ {
            user_parses(raw)
        } else if t == "assistant"@ {
            assistant_parses(raw)
        } else if t == "system"@ {
            system_parses(raw)
        } else if t == "result"@ {
            result_parses(raw)
        } else if t == "stream_event"@ {
            stream_parses(raw)
        } else {
            false
        },
        None => false,
    }
}

/// How a produced message relates to the frame it was decoded from.
pub open spec fn message_of(raw: JsonV, m: Message) -> bool {
    &&& raw is Obj
    &&& match m {
        Message::User(um) => get_str(raw, "type"@) == Some("user"@) && user_of(raw, um),
        Message::Assistant(am) => get_str(raw, "type"@) == Some("assistant"@) && assistant_of(
            raw,
            am,
        ),
        Message::System(sm) => get_str(raw, "type"@) == Some("system"@) && system_of(raw, sm),
        Message::Result(rm) => get_str(raw, "type"@) == Some("result"@) && result_of(raw, rm),
        Message::StreamEvent(se) => get_str(raw, "type"@) == Some("stream_event"@)
            && stream_of(raw, se),
    }
}

/// The name used for a value's kind in diagnostics.
pub open spec fn type_name_of(v: JsonV) -> Seq<char> {
    match v {
        JsonV::Null => "null"@,
        JsonV::Bool(_) => "bool"@,
        JsonV::Num(_) => "number"@,
        JsonV::Str(_) => "string"@,
        JsonV::Arr(_) => "array"@,
        JsonV::Obj(_) => "object"@,
    }
}

/// What an error from `parse_message` must look like.
pub open spec fn parse_err_ok(raw: JsonV, e: SdkError) -> bool {
    match e {
        SdkError::MessageParse(pe) => {
            &&& !(raw is Obj) ==> (pe.spec_message() == "Invalid message data type (expected object, got "@
                + type_name_of(raw) + ")"@ && pe.spec_data() == Some(raw))
            &&& (raw is Obj && get_str(raw, "type"@) is None) ==> (pe.spec_message()
                == "Message missing 'type' field"@ && pe.spec_data() == Some(raw))
            &&& match get_str(raw, "type"@) {
                Some(t) => !known_message_type(t) ==> (pe.spec_message()
                    == "Unknown message type: "@ + t && pe.spec_data() == Some(raw)),
                None => true,
            }
        },
        _ => false,
    }
}

fn value_type_name(v: &JsonValue) -> (r: &'static str)
    ensures
        r@ == type_name_of(v@),
{
    match v {
        JsonValue::Null => "null",
        JsonValue::Bool(_) => "bool",
        JsonValue::Num(_) => "number",
        JsonValue::Str(_) => "string",
        JsonValue::Arr(_) => "array",
        JsonValue::Obj(_) => "object",
    }
}

fn mk_parse_err(message: String, raw: &JsonValue) -> (r: SdkError)
    ensures
        r matches SdkError::MessageParse(pe) && pe.spec_message() == message@
            && pe.spec_data() == Some(raw@),
{
    SdkError::MessageParse(MessageParseError::new(message, Some(raw.deep_clone())))
}

fn get_string(raw: &JsonValue, key: &str) -> (r: Option<String>)
    ensures
        match r {
            Some(s) => get_str(raw@, key@) == Some(s@),
            None => get_str(raw@, key@) is None,
        },
{
    match raw.get(key) {
        Some(v) => match v.as_str() {
            Some(s) => Some(s.clone()),
            None => None,
        },
        None => None,
    }
}

fn get_i64_field(raw: &JsonValue, key: &str) -> (r: Option<i64>)
    ensures
        match r {
            Some(n) => i64_field(raw@, key@) == Some(n as int),
            None => i64_field(raw@, key@) is None,
        },
{
    match raw.get(key) {
        Some(v) => v.as_i64(),
        None => None,
    }
}

fn get_bool_field(raw: &JsonValue, key: &str) -> (r: Option<bool>)
    ensures
        r == bool_field(raw@, key@),
{
    match raw.get(key) {
        Some(v) => v.as_bool(),
        None => None,
    }
}

fn get_parent_id(raw: &JsonValue) -> (r: Option<String>)
    ensures
        opt_str_matches(r, parent_id_of(raw@)),
{
    match raw.get("parent_tool_use_id") {
        Some(v) => match v.as_str() {
            Some(s) => Some(s.clone()),
            None => None,
        },
        None => match raw.get("parentToolUseId") {
            Some(v) => match v.as_str() {
                Some(s) => Some(s.clone()),
                None => None,
            },
            None => None,
        },
    }
}

fn get_nested<'a>(raw: &'a JsonValue, key: &str) -> (r: Option<&'a JsonValue>)
    ensures
        match r {
            Some(v) => nested_source(raw@, key@) == Some(v@),
            None => nested_source(raw@, key@) is None,
        },
{
    match raw.get("message") {
        Some(m) => {
            if m.is_object() {
                match m.get(key) {
                    Some(c) => Some(c),
                    None => raw.get(key),
                }
            } else {
                raw.get(key)
            }
        },
        None => raw.get(key),
    }
}

fn parse_content_block(raw: &JsonValue) -> (r: Result<ContentBlock, SdkError>)
    ensures
        match r {
            Ok(c) => block_of(raw@, c),
            Err(e) => !block_parses(raw@) && e is MessageParse,
        },
{
    let kind = match get_string(raw, "type") {
        Some(t) => t,
        None => {
            return Err(mk_parse_err(String::from_str("Content block missing type"), raw));
        },
    };
    if str_eq(kind.as_str(), "text") {
        match get_string(raw, "text") {
            Some(text) => Ok(ContentBlock::Text(TextBlock { text })),
            None => Err(mk_parse_err(String::from_str("Text block missing text"), raw)),
        }
    } else if str_eq(kind.as_str(), "thinking") {
        let thinking = match get_string(raw, "thinking") {
            Some(t) => t,
            None => {
                return Err(
                    mk_parse_err(String::from_str("Thinking block missing text"), raw),
                );
            },
        };
        match get_string(raw, "signature") {
            Some(signature) => Ok(
                ContentBlock::Thinking(ThinkingBlock { thinking, signature }),
            ),
            None => Err(
                mk_parse_err(String::from_str("Thinking block missing signature"), raw),
            ),
        }
    } else if str_eq(kind.as_str(), "tool_use") {
        let id = match get_string(raw, "id") {
            Some(t) => t,
            None => {
                return Err(mk_parse_err(String::from_str("Tool use block missing id"), raw));
            },
        };
        let name = match get_string(raw, "name") {
            Some(t) => t,
            None => {
                return Err(
                    mk_parse_err(String::from_str("Tool use block missing name"), raw),
                );
            },
        };
        match raw.get("input") {
            Some(inp) => {
                if inp.is_object() {
                    Ok(ContentBlock::ToolUse(ToolUseBlock { id, name, input: inp.deep_clone() }))
                } else {
                    Err(mk_parse_err(String::from_str("Tool use block missing input"), raw))
                }
            },
            None => Err(mk_parse_err(String::from_str("Tool use block missing input"), raw)),
        }
    } else if str_eq(kind.as_str(), "tool_result") {
        let tool_use_id_opt: Option<String> = match raw.get("tool_use_id") {
            Some(v) => match v.as_str() {
                Some(s) => Some(s.clone()),
                None => None,
            },
            None => match raw.get("toolUseId") {
                Some(v) => match v.as_str() {
                    Some(s) => Some(s.clone()),
                    None => None,
                },
                None => None,
            },
        };
        let tool_use_id = match tool_use_id_opt {
            Some(t) => t,
            None => {
                return Err(
                    mk_parse_err(
                        String::from_str("Tool result block missing tool_use_id"),
                        raw,
                    ),
                );
            },
        };
        let content = match raw.get("content") {
            Some(c) => Some(c.deep_clone()),
            None => None,
        };
        let is_error = get_bool_field(raw, "is_error");
        Ok(ContentBlock::ToolResult(ToolResultBlock { tool_use_id, content, is_error }))
    } else {
        let mut msg = String::from_str("Unknown content block type: ");
        msg.append(kind.as_str());
        Err(mk_parse_err(msg, raw))
    }
}

fn parse_blocks(items: &Vec<JsonValue>) -> (r: Result<Vec<ContentBlock>, SdkError>)
    ensures
        match r {
            Ok(cs) => blocks_of(arr_view(items@), cs@) && blocks_parse(arr_view(items@)),
            Err(e) => !blocks_parse(arr_view(items@)) && e is MessageParse,
        },
{
    proof {
        crate::json::lemma_arr_view(items@);
    }
    let ghost elems = arr_view(items@);
    let mut out: Vec<ContentBlock> = Vec::new();
    let mut i: usize = 0;
    while i < items.len()
        invariant
            i <= items@.len(),
            elems == arr_view(items@),
            elems.len() == items@.len(),
            forall|q: int| 0 <= q < items@.len() ==> elems[q] == (#[trigger] items@[q])@,
            out@.len() == i,
            forall|q: int| 0 <= q < i ==> block_of(elems[q], #[trigger] out@[q]),
        decreases items@.len() - i,
    {
        match parse_content_block(&items[i]) {
            Ok(c) => {
                proof {
                    lemma_block_of_parses(elems[i as int], c);
                }
                out.push(c);
            },
            Err(e) => {
                proof {
                    assert(!block_parses(elems[i as int]));
                }
                return Err(e);
            },
        }
        i = i + 1;
    }
    proof {
        assert forall|q: int| 0 <= q < elems.len() implies block_parses(#[trigger] elems[q]) by {
            lemma_block_of_parses(elems[q], out@[q]);
        }
    }
    Ok(out)
}

fn parse_user_message(raw: &JsonValue) -> (r: Result<Message, SdkError>)
    ensures
        match r {
            Ok(m) => m matches Message::User(um) && user_of(raw@, um) && user_parses(raw@),
            Err(e) => !user_parses(raw@) && e is MessageParse,
        },
{
    let content_value = match get_nested(raw, "content") {
        Some(c) => c,
        None => {
            return Err(mk_parse_err(String::from_str("User message missing content"), raw));
        },
    };
    let content: UserMessageContent = if content_value.is_string() {
        match content_value.as_str() {
            Some(s) => UserMessageContent::Text(s.clone()),
            None => {
                return Err(mk_parse_err(String::from_str("Invalid string content"), raw));
            },
        }
    } else if content_value.is_array() {
        match content_value.as_array() {
            Some(items) => match parse_blocks(items) {
                Ok(blocks) => UserMessageContent::Blocks(blocks),
                Err(e) => {
                    return Err(e);
                },
            },
            None => {
                return Err(mk_parse_err(String::from_str("Invalid content array"), raw));
            },
        }
    } else {
        return Err(
            mk_parse_err(String::from_str("Unrecognized user message content"), raw),
        );
    };
    let parent_tool_use_id = get_parent_id(raw);
    Ok(Message::User(UserMessage { content, parent_tool_use_id }))
}

fn parse_assistant_message(raw: &JsonValue) -> (r: Result<Message, SdkError>)
    ensures
        match r {
            Ok(m) => m matches Message::Assistant(am) && assistant_of(raw@, am) && assistant_parses(raw@),
            Err(e) => !assistant_parses(raw@) && e is MessageParse,
        },
{
    let content_value = match get_nested(raw, "content") {
        Some(c) => c,
        None => {
            return Err(
                mk_parse_err(String::from_str("Assistant message missing content"), raw),
            );
        },
    };
    let content = match content_value.as_array() {
        Some(items) => match parse_blocks(items) {
            Ok(blocks) => blocks,
            Err(e) => {
                return Err(e);
            },
        },
        None => {
            return Err(mk_parse_err(String::from_str("Invalid assistant content"), raw));
        },
    };
    let model_value = match get_nested(raw, "model") {
        Some(m) => m,
        None => {
            return Err(
                mk_parse_err(String::from_str("Assistant message missing model"), raw),
            );
        },
    };
    let model = match model_value.as_str() {
        Some(s) => s.clone(),
        None => {
            return Err(
                mk_parse_err(String::from_str("Assistant message missing model"), raw),
            );
        },
    };
    let parent_tool_use_id = get_parent_id(raw);
    Ok(Message::Assistant(AssistantMessage { content, model, parent_tool_use_id }))
}

fn parse_system_message(raw: &JsonValue) -> (r: Result<Message, SdkError>)
    requires
        raw@ is Obj,
    ensures
        match r {
            Ok(m) => m matches Message::System(sm) && system_of(raw@, sm) && system_parses(raw@),
            Err(e) => !system_parses(raw@) && e is MessageParse,
        },
{
    let subtype = match get_string(raw, "subtype") {
        Some(s) => s,
        None => {
            return Err(
                mk_parse_err(String::from_str("System message missing subtype"), raw),
            );
        },
    };
    Ok(Message::System(SystemMessage { subtype, data: raw.deep_clone() }))
}

fn parse_result_message(raw: &JsonValue) -> (r: Result<Message, SdkError>)
    ensures
        match r {
            Ok(m) => m matches Message::Result(rm) && result_of(raw@, rm) && result_parses(raw@),
            Err(e) => !result_parses(raw@) && e is MessageParse,
        },
{
    let subtype = match get_string(raw, "subtype") {
        Some(s) => s,
        None => {
            return Err(
                mk_parse_err(String::from_str("Result message missing subtype"), raw),
            );
        },
    };
    let duration_ms = match get_i64_field(raw, "duration_ms") {
        Some(n) => n,
        None => {
            return Err(
                mk_parse_err(String::from_str("Missing integer field: duration_ms"), raw),
            );
        },
    };
    let duration_api_ms = match get_i64_field(raw, "duration_api_ms") {
        Some(n) => n,
        None => {
            return Err(
                mk_parse_err(
                    String::from_str("Missing integer field: duration_api_ms"),
                    raw,
                ),
            );
        },
    };
    let is_error = match get_bool_field(raw, "is_error") {
        Some(b) => b,
        None => {
            return Err(
                mk_parse_err(String::from_str("Missing boolean field: is_error"), raw),
            );
        },
    };
    let num_turns = match get_i64_field(raw, "num_turns") {
        Some(n) => n,
        None => {
            return Err(
                mk_parse_err(String::from_str("Missing integer field: num_turns"), raw),
            );
        },
    };
    let session_id = match get_string(raw, "session_id") {
        Some(s) => s,
        None => {
            return Err(
                mk_parse_err(String::from_str("Result message missing session_id"), raw),
            );
        },
    };
    let total_cost_usd = match raw.get("total_cost_usd") {
        Some(v) => {
            if matches!(v, JsonValue::Num(_)) {
                Some(v.deep_clone())
            } else {
                None
            }
        },
        None => None,
    };
    let usage = match raw.get("usage") {
        Some(v) => {
            if v.is_object() {
                Some(v.deep_clone())
            } else {
                None
            }
        },
        None => None,
    };
    let result = get_string(raw, "result");
    Ok(
        Message::Result(
            ResultMessage {
                subtype,
                duration_ms,
                duration_api_ms,
                is_error,
                num_turns,
                session_id,
                total_cost_usd,
                usage,
                result,
            },
        ),
    )
}

fn parse_stream_event(raw: &JsonValue) -> (r: Result<Message, SdkError>)
    ensures
        match r {
            Ok(m) => m matches Message::StreamEvent(se) && stream_of(raw@, se) && stream_parses(raw@),
            Err(e) => !stream_parses(raw@) && e is MessageParse,
        },
{
    let uuid = match get_string(raw, "uuid") {
        Some(s) => s,
        None => {
            return Err(mk_parse_err(String::from_str("Stream event missing uuid"), raw));
        },
    };
    let session_id = match get_string(raw, "session_id") {
        Some(s) => s,
        None => {
            return Err(
                mk_parse_err(String::from_str("Stream event missing session_id"), raw),
            );
        },
    };
    let event = match raw.get("event") {
        Some(v) => v.deep_clone(),
        None => {
            return Err(
                mk_parse_err(String::from_str("Stream event missing event payload"), raw),
            );
        },
    };
    let parent_tool_use_id = get_parent_id(raw);
    Ok(Message::StreamEvent(StreamEvent { uuid, session_id, event, parent_tool_use_id }))
}

/// Decodes one content frame into a typed message.
///
/// Succeeds exactly on the frames accepted by [`message_parses`]; the
/// produced message satisfies [`message_of`], and a failure is a message
/// parse error whose payload and text follow [`parse_err_ok`].
pub fn parse_message(raw: &JsonValue) -> (r: Result<Message, SdkError>)
    ensures
        match r {
            Ok(m) => message_parses(raw@) && message_of(raw@, m),
            Err(e) => !message_parses(raw@) && parse_err_ok(raw@, e),
        },
{
    if !raw.is_object() {
        let mut msg = String::from_str("Invalid message data type (expected object, got ");
        msg.append(value_type_name(raw));
        msg.append(")");
        return Err(mk_parse_err(msg, raw));
    }
    let message_type = match get_string(raw, "type") {
        Some(t) => t,
        None => {
            return Err(
                mk_parse_err(String::from_str("Message missing 'type' field"), raw),
            );
        },
    };
    if str_eq(message_type.as_str(), "user") {
        match parse_user_message(raw) {
            Ok(m) => Ok(m),
            Err(e) => Err(e),
        }
    } else if str_eq(message_type.as_str(), "assistant") {
        match parse_assistant_message(raw) {
            Ok(m) => Ok(m),
            Err(e) => Err(e),
        }
    } else if str_eq(message_type.as_str(), "system") {
        match parse_system_message(raw) {
            Ok(m) => Ok(m),
            Err(e) => Err(e),
        }
    } else if str_eq(message_type.as_str(), "result") {
        match parse_result_message(raw) {
            Ok(m) => Ok(m),
            Err(e) => Err(e),
        }
    } else if str_eq(message_type.as_str(), "stream_event") {
        match parse_stream_event(raw) {
            Ok(m) => Ok(m),
            Err(e) => Err(e),
        }
    } else {
        let mut msg = String::from_str("Unknown message type: ");
        msg.append(message_type.as_str());
        Err(mk_parse_err(msg, raw))
    }
}

} // verus!
