//! In-process tool server surface: tool metadata, call results, and the
//! JSON-RPC shaped payloads built from them.
//!
//! A server's callable handlers live with the embedding program; the
//! library holds each server's name, version and tool metadata, and builds
//! every wire payload here.

use vstd::prelude::*;

use crate::json::{obj_fields_view, JsonV, JsonValue};
use crate::text::int_lexeme;
use vstd::string::StringExecFns;

verus! {

/// Metadata describing one tool exposed by an in-process server.
#[derive(Debug)]
pub struct McpToolInfo {
    pub name: String,
    pub description: Option<String>,
    pub input_schema: Option<JsonValue>,
}

impl McpToolInfo {
    pub fn new(name: &str, description: Option<String>, input_schema: Option<JsonValue>) -> (r:
        McpToolInfo)
        ensures
            r.name@ == name@,
            r.description == description,
            r.input_schema == input_schema,
    {
        McpToolInfo { name: String::from_str(name), description, input_schema }
    }
}

/// Content payloads returned from tool executions.
#[derive(Debug)]
pub enum McpToolContent {
    Text { text: String },
    Image { data: String, mime_type: String },
    Json { value: JsonValue },
}

impl McpToolContent {
    pub fn text(text: &str) -> (r: McpToolContent)
        ensures
            r matches McpToolContent::Text { text: t } && t@ == text@,
    {
        McpToolContent::Text { text: String::from_str(text) }
    }

    pub fn image(data: &str, mime_type: &str) -> (r: McpToolContent)
        ensures
            r matches McpToolContent::Image { data: d, mime_type: m } && d@ == data@ && m@
                == mime_type@,
    {
        McpToolContent::Image {
            data: String::from_str(data),
            mime_type: String::from_str(mime_type),
        }
    }

    pub fn json(value: JsonValue) -> (r: McpToolContent)
        ensures
            r matches McpToolContent::Json { value: v } && v == value,
    {
        McpToolContent::Json { value }
    }
}

/// Result of invoking a tool.
#[derive(Debug)]
pub struct McpToolCallResult {
    pub content: Vec<McpToolContent>,
    pub is_error: bool,
}

impl McpToolCallResult {
    pub fn new(content: Vec<McpToolContent>) -> (r: McpToolCallResult)
        ensures
            r.content == content,
            !r.is_error,
    {
        McpToolCallResult { content, is_error: false }
    }

    pub fn with_error(self, is_error: bool) -> (r: McpToolCallResult)
        ensures
            r.content == self.content,
            r.is_error == is_error,
    {
        McpToolCallResult { is_error, ..self }
    }
}

/// The wire object for one piece of tool output.
pub open spec fn spec_content_payload(c: McpToolContent) -> JsonV {
    match c {
        McpToolContent::Text { text } => JsonV::Obj(
            seq![("type"@, JsonV::Str("text"@)), ("text"@, JsonV::Str(text@))],
        ),
        McpToolContent::Image { data, mime_type } => JsonV::Obj(
            seq![
                ("type"@, JsonV::Str("image"@)),
                ("data"@, JsonV::Str(data@)),
                ("mimeType"@, JsonV::Str(mime_type@)),
            ],
        ),
        McpToolContent::Json { value } => JsonV::Obj(
            seq![("type"@, JsonV::Str("json"@)), ("value"@, value@)],
        ),
    }
}

/// The wire object for a completed tool call: its content items, and an
/// error marker only when the call failed.
pub open spec fn spec_call_result_payload(r: McpToolCallResult) -> JsonV {
    let content = JsonV::Arr(
        r.content@.map_values(|c: McpToolContent| spec_content_payload(c)),
    );
    if r.is_error {
        JsonV::Obj(seq![("content"@, content), ("is_error"@, JsonV::Bool(true))])
    } else {
        JsonV::Obj(seq![("content"@, content)])
    }
}

/// The wire object for one tool listing entry: name, optional description,
/// and its input schema (an empty object when none was given).
pub open spec fn spec_tool_entry(t: McpToolInfo) -> JsonV {
    let fields = seq![("name"@, JsonV::Str(t.name@))];
    let fields = match t.description {
        Some(d) => fields.push(("description"@, JsonV::Str(d@))),
        None => fields,
    };
    match t.input_schema {
        Some(s) => JsonV::Obj(fields.push(("inputSchema"@, s@))),
        None => JsonV::Obj(fields.push(("inputSchema"@, JsonV::Obj(Seq::empty())))),
    }
}

/// A JSON-RPC error object: `{jsonrpc, id, error: {code, message}}`.
pub open spec fn spec_jsonrpc_error(id: JsonV, code: int, message: Seq<char>) -> JsonV {
    JsonV::Obj(
        seq![
            ("jsonrpc"@, JsonV::Str("2.0"@)),
            ("id"@, id),
            (
                "error"@,
                JsonV::Obj(
                    seq![
                        ("code"@, JsonV::Num(int_lexeme(code))),
                        ("message"@, JsonV::Str(message)),
                    ],
                ),
            ),
        ],
    )
}

/// A JSON-RPC result envelope: `{jsonrpc, id, result}`.
pub open spec fn spec_jsonrpc_result(id: JsonV, result: JsonV) -> JsonV {
    JsonV::Obj(
        seq![("jsonrpc"@, JsonV::Str("2.0"@)), ("id"@, id), ("result"@, result)],
    )
}

/// The static capability descriptor returned for `initialize`.
pub open spec fn spec_initialize_result(name: Seq<char>, version: Seq<char>) -> JsonV {
    JsonV::Obj(
        seq![
            ("protocolVersion"@, JsonV::Str("2024-11-05"@)),
            ("capabilities"@, JsonV::Obj(seq![("tools"@, JsonV::Obj(Seq::empty()))])),
            (
                "serverInfo"@,
                JsonV::Obj(
                    seq![("name"@, JsonV::Str(name)), ("version"@, JsonV::Str(version))],
                ),
            ),
        ],
    )
}

/// Builds a JSON-RPC error payload.
pub fn jsonrpc_error(id: JsonValue, code: i64, message: String) -> (r: JsonValue)
    ensures
        r@ == spec_jsonrpc_error(id@, code as int, message@),
{
    let ghost msgv = message@;
    let ghost idv = id@;
    let mut err_fields: Vec<(String, JsonValue)> = Vec::new();
    err_fields.push((String::from_str("code"), JsonValue::int64(code)));
    err_fields.push((String::from_str("message"), JsonValue::Str(message)));
    let ghost efv = err_fields@;
    let err = JsonValue::Obj(err_fields);
    let mut fields: Vec<(String, JsonValue)> = Vec::new();
    fields.push((String::from_str("jsonrpc"), JsonValue::Str(String::from_str("2.0"))));
    fields.push((String::from_str("id"), id));
    fields.push((String::from_str("error"), err));
    let ghost fv = fields@;
    let out = JsonValue::Obj(fields);
    proof {
        crate::json::lemma_obj_fields_view(efv);
        crate::json::lemma_obj_fields_view(fv);
        assert(obj_fields_view(efv) =~~= seq![
            ("code"@, JsonV::Num(int_lexeme(code as int))),
            ("message"@, JsonV::Str(msgv)),
        ]) by {
            assert(obj_fields_view(efv)[0] == ((#[trigger] efv[0]).0@, efv[0].1@));
            assert(obj_fields_view(efv)[1] == ((#[trigger] efv[1]).0@, efv[1].1@));
        }
        assert forall|z: int| 0 <= z < fv.len() implies obj_fields_view(fv)[z] == (
            fv[z].0@,
            fv[z].1@,
        ) by {
            assert(obj_fields_view(fv)[z] == ((#[trigger] fv[z]).0@, fv[z].1@));
        }
        assert(obj_fields_view(fv) =~~= spec_jsonrpc_error(idv, code as int, msgv)->Obj_0);
    }
    out
}

/// Builds a JSON-RPC success envelope around a result payload.
pub fn jsonrpc_result(id: JsonValue, result: JsonValue) -> (r: JsonValue)
    ensures
        r@ == spec_jsonrpc_result(id@, result@),
{
    let mut fields: Vec<(String, JsonValue)> = Vec::new();
    fields.push((String::from_str("jsonrpc"), JsonValue::Str(String::from_str("2.0"))));
    fields.push((String::from_str("id"), id));
    fields.push((String::from_str("result"), result));
    let ghost fv = fields@;
    let out = JsonValue::Obj(fields);
    proof {
        crate::json::lemma_obj_fields_view(fv);
        assert forall|z: int| 0 <= z < fv.len() implies obj_fields_view(fv)[z] == (
            fv[z].0@,
            fv[z].1@,
        ) by {
            assert(obj_fields_view(fv)[z] == ((#[trigger] fv[z]).0@, fv[z].1@));
        }
        assert(obj_fields_view(fv) =~~= spec_jsonrpc_result(fv[1].1@, fv[2].1@)->Obj_0);
    }
    out
}

/// Builds the `initialize` response for a named server.
pub fn build_mcp_initialize_response(id: JsonValue, name: &str, version: &str) -> (r: JsonValue)
    ensures
        r@ == spec_jsonrpc_result(id@, spec_initialize_result(name@, version@)),
{
    let mut caps: Vec<(String, JsonValue)> = Vec::new();
    caps.push((String::from_str("tools"), JsonValue::Obj(Vec::new())));
    let ghost capsv = caps@;
    let caps_obj = JsonValue::Obj(caps);
    let mut info: Vec<(String, JsonValue)> = Vec::new();
    info.push((String::from_str("name"), JsonValue::Str(String::from_str(name))));
    info.push((String::from_str("version"), JsonValue::Str(String::from_str(version))));
    let ghost infov = info@;
    let info_obj = JsonValue::Obj(info);
    let mut res: Vec<(String, JsonValue)> = Vec::new();
    res.push(
        (String::from_str("protocolVersion"), JsonValue::Str(String::from_str("2024-11-05"))),
    );
    res.push((String::from_str("capabilities"), caps_obj));
    res.push((String::from_str("serverInfo"), info_obj));
    let ghost resv = res@;
    let res_obj = JsonValue::Obj(res);
    proof {
        crate::json::lemma_obj_fields_view(capsv);
        crate::json::lemma_obj_fields_view(infov);
        crate::json::lemma_obj_fields_view(resv);
        crate::json::lemma_obj_fields_view(Seq::<(String, JsonValue)>::empty());
        assert(obj_fields_view(Seq::<(String, JsonValue)>::empty()) =~~= Seq::<(
            Seq<char>,
            JsonV,
        )>::empty());
        assert(obj_fields_view(capsv) =~~= seq![("tools"@, JsonV::Obj(Seq::empty()))]) by {
            assert(obj_fields_view(capsv)[0] == ((#[trigger] capsv[0]).0@, capsv[0].1@));
        }
        assert(obj_fields_view(infov) =~~= seq![
            ("name"@, JsonV::Str(name@)),
            ("version"@, JsonV::Str(version@)),
        ]) by {
            assert(obj_fields_view(infov)[0] == ((#[trigger] infov[0]).0@, infov[0].1@));
            assert(obj_fields_view(infov)[1] == ((#[trigger] infov[1]).0@, infov[1].1@));
        }
        assert forall|z: int| 0 <= z < resv.len() implies obj_fields_view(resv)[z] == (
            resv[z].0@,
            resv[z].1@,
        ) by {
            assert(obj_fields_view(resv)[z] == ((#[trigger] resv[z]).0@, resv[z].1@));
        }
        assert(obj_fields_view(resv) =~~= spec_initialize_result(name@, version@)->Obj_0);
        assert(res_obj@ == spec_initialize_result(name@, version@));
    }
    jsonrpc_result(id, res_obj)
}

/// Renders a tool list as the `tools/list` result entries.
pub fn convert_mcp_tool_list(tools: &Vec<McpToolInfo>) -> (r: Vec<JsonValue>)
    ensures
        r@.len() == tools@.len(),
        forall|i: int|
            0 <= i < tools@.len() ==> (#[trigger] r@[i])@ == spec_tool_entry(tools@[i]),
{
    let mut out: Vec<JsonValue> = Vec::new();
    let mut i: usize = 0;
    while i < tools.len()
        invariant
            i <= tools@.len(),
            out@.len() == i,
            forall|q: int|
                0 <= q < i ==> (#[trigger] out@[q])@ == spec_tool_entry(tools@[q]),
        decreases tools@.len() - i,
    {
        let t = &tools[i];
        let mut fields: Vec<(String, JsonValue)> = Vec::new();
        fields.push((String::from_str("name"), JsonValue::Str(t.name.clone())));
        if let Some(d) = &t.description {
            fields.push((String::from_str("description"), JsonValue::Str(d.clone())));
        }
        match &t.input_schema {
            Some(s) => {
                fields.push((String::from_str("inputSchema"), s.deep_clone()));
            },
            None => {
                fields.push((String::from_str("inputSchema"), JsonValue::Obj(Vec::new())));
            },
        }
        let ghost fv = fields@;
        let entry = JsonValue::Obj(fields);
        proof {
            crate::json::lemma_obj_fields_view(fv);
            crate::json::lemma_obj_fields_view(Seq::<(String, JsonValue)>::empty());
            assert forall|z: int| 0 <= z < fv.len() implies obj_fields_view(fv)[z] == (
                fv[z].0@,
                fv[z].1@,
            ) by {
                assert(obj_fields_view(fv)[z] == ((#[trigger] fv[z]).0@, fv[z].1@));
            }
            assert(obj_fields_view(fv) =~~= spec_tool_entry(tools@[i as int])->Obj_0);
        }
        out.push(entry);
        i = i + 1;
    }
    out
}

/// Renders a completed tool call as its wire result object.
pub fn convert_mcp_call_result(result: &McpToolCallResult) -> (r: JsonValue)
    ensures
        r@ == spec_call_result_payload(*result),
{
    let mut items: Vec<JsonValue> = Vec::new();
    let mut i: usize = 0;
    while i < result.content.len()
        invariant
            i <= result.content@.len(),
            items@.len() == i,
            forall|q: int|
                0 <= q < i ==> (#[trigger] items@[q])@ == spec_content_payload(
                    result.content@[q],
                ),
        decreases result.content@.len() - i,
    {
        let c = &result.content[i];
        let mut fields: Vec<(String, JsonValue)> = Vec::new();
        match c {
            McpToolContent::Text { text } => {
                fields.push((String::from_str("type"), JsonValue::Str(String::from_str("text"))));
                fields.push((String::from_str("text"), JsonValue::Str(text.clone())));
            },
            McpToolContent::Image { data, mime_type } => {
                fields.push((String::from_str("type"), JsonValue::Str(String::from_str("image"))));
                fields.push((String::from_str("data"), JsonValue::Str(data.clone())));
                fields.push((String::from_str("mimeType"), JsonValue::Str(mime_type.clone())));
            },
            McpToolContent::Json { value } => {
                fields.push((String::from_str("type"), JsonValue::Str(String::from_str("json"))));
                fields.push((String::from_str("value"), value.deep_clone()));
            },
        }
        let ghost fv = fields@;
        let entry = JsonValue::Obj(fields);
        proof {
            crate::json::lemma_obj_fields_view(fv);
            assert forall|z: int| 0 <= z < fv.len() implies obj_fields_view(fv)[z] == (
                fv[z].0@,
                fv[z].1@,
            ) by {
                assert(obj_fields_view(fv)[z] == ((#[trigger] fv[z]).0@, fv[z].1@));
            }
            assert(obj_fields_view(fv) =~~= spec_content_payload(
                result.content@[i as int],
            )->Obj_0);
        }
        items.push(entry);
        i = i + 1;
    }
    proof {
        crate::json::lemma_arr_view(items@);
        assert forall|z: int| 0 <= z < items@.len() implies crate::json::arr_view(items@)[z]
            == result.content@.map_values(
            |c: McpToolContent| spec_content_payload(c),
        )[z] by {
            assert(crate::json::arr_view(items@)[z] == (#[trigger] items@[z])@);
        }
        assert(crate::json::arr_view(items@) =~~= result.content@.map_values(
            |c: McpToolContent| spec_content_payload(c),
        ));
    }
    let content = JsonValue::Arr(items);
    let mut fields: Vec<(String, JsonValue)> = Vec::new();
    fields.push((String::from_str("content"), content));
    if result.is_error {
        fields.push((String::from_str("is_error"), JsonValue::Bool(true)));
    }
    let ghost fv = fields@;
    let out = JsonValue::Obj(fields);
    proof {
        crate::json::lemma_obj_fields_view(fv);
        assert forall|z: int| 0 <= z < fv.len() implies obj_fields_view(fv)[z] == (
            fv[z].0@,
            fv[z].1@,
        ) by {
            assert(obj_fields_view(fv)[z] == ((#[trigger] fv[z]).0@, fv[z].1@));
        }
        assert(obj_fields_view(fv) =~~= spec_call_result_payload(*result)->Obj_0);
    }
    out
}

} // verus!
