//! Configuration types and the argument vector built from them.
//!
//! The embedding program spawns the child with exactly the arguments
//! computed here; writing settings files and offloading oversized argument
//! values to temporary files stay with it.

use vstd::prelude::*;

use crate::json::{obj_fields_view, JsonV, JsonValue};
use crate::text::dec_digits;
use crate::transport::{spec_trim, PromptMode};
use vstd::string::{StrSliceExecFns, StringExecFns};
use vstd::utf8::{decode_utf8, encode_utf8};

verus! {

/// Source of configuration settings.
#[derive(Debug, Clone, Copy, PartialEq, Eq)]
pub enum SettingSource {
    User,
    Project,
    Local,
}

impl SettingSource {
    pub open spec fn spec_str(&self) -> Seq<char> {
        match self {
            SettingSource::User => "user"@,
            SettingSource::Project => "project"@,
            SettingSource::Local => "local"@,
        }
    }

    pub fn as_str(&self) -> (r: &'static str)
        ensures
            r@ == self.spec_str(),
    {
        match self {
            SettingSource::User => "user",
            SettingSource::Project => "project",
            SettingSource::Local => "local",
        }
    }
}

/// Type discriminator for system prompt presets.
#[derive(Debug, Clone, Copy, PartialEq, Eq)]
pub enum SystemPromptPresetType {
    Preset,
}

/// Supported preset names.
#[derive(Debug, Clone, Copy, PartialEq, Eq)]
pub enum SystemPromptPresetName {
    ClaudeCode,
}

/// Preset system prompt configuration.
#[derive(Debug)]
pub struct SystemPromptPreset {
    pub kind: SystemPromptPresetType,
    pub preset: SystemPromptPresetName,
    pub append: Option<String>,
}

/// The system prompt option.
#[derive(Debug)]
pub enum SystemPrompt {
    Text(String),
    Preset(SystemPromptPreset),
}

/// Agent definition configuration.
#[derive(Debug)]
pub struct AgentDefinition {
    pub description: String,
    pub prompt: String,
    pub tools: Option<Vec<String>>,
    pub model: Option<String>,
}

/// Kind of a configured tool server.
#[derive(Debug, Clone, Copy, PartialEq, Eq)]
pub enum McpServerKind {
    Stdio,
    Sse,
    Http,
    Sdk,
}

impl McpServerKind {
    pub open spec fn spec_str(&self) -> Seq<char> {
        match self {
            McpServerKind::Stdio => "stdio"@,
            McpServerKind::Sse => "sse"@,
            McpServerKind::Http => "http"@,
            McpServerKind::Sdk => "sdk"@,
        }
    }

    pub fn as_str(&self) -> (r: &'static str)
        ensures
            r@ == self.spec_str(),
    {
        match self {
            McpServerKind::Stdio => "stdio",
            McpServerKind::Sse => "sse",
            McpServerKind::Http => "http",
            McpServerKind::Sdk => "sdk",
        }
    }
}

/// A tool server spawned over standard streams.
#[derive(Debug)]
pub struct McpStdioServerConfig {
    pub command: String,
    pub args: Option<Vec<String>>,
    pub env: Option<Vec<(String, String)>>,
}

/// A tool server reached over server-sent events.
#[derive(Debug)]
pub struct McpSseServerConfig {
    pub kind: McpServerKind,
    pub url: String,
    pub headers: Option<Vec<(String, String)>>,
}

/// A tool server reached over plain requests.
#[derive(Debug)]
pub struct McpHttpServerConfig {
    pub kind: McpServerKind,
    pub url: String,
    pub headers: Option<Vec<(String, String)>>,
}

/// An in-process tool server registration.
#[derive(Debug)]
pub struct McpSdkServerConfig {
    pub kind: McpServerKind,
    pub name: String,
    pub instance: Option<JsonValue>,
}

/// Union of supported tool server configurations.
#[derive(Debug)]
pub enum McpServerConfig {
    Stdio(McpStdioServerConfig),
    Sse(McpSseServerConfig),
    Http(McpHttpServerConfig),
    Sdk(McpSdkServerConfig),
}

/// Local plugin configuration.
#[derive(Debug)]
pub struct SdkPluginConfig {
    pub kind: SdkPluginKind,
    pub path: String,
}

#[derive(Debug, Clone, Copy, PartialEq, Eq)]
pub enum SdkPluginKind {
    Local,
}

/// Tool server configuration input: a table, a settings file path, or an
/// inline JSON text.
#[derive(Debug)]
pub enum McpServers {
    Table(Vec<(String, McpServerConfig)>),
    Path(String),
    Inline(String),
}

/// The options consulted when building the child's argument vector. The
/// embedding program renders values that the library does not hold (a cost
/// bound, filesystem paths) to strings beforehand.
#[derive(Debug)]
pub struct CommandOptions {
    pub system_prompt: Option<SystemPrompt>,
    pub allowed_tools: Vec<String>,
    pub max_turns: Option<u32>,
    pub max_budget_usd: Option<String>,
    pub disallowed_tools: Vec<String>,
    pub model: Option<String>,
    pub permission_prompt_tool_name: Option<String>,
    pub permission_mode: Option<crate::permission::PermissionMode>,
    pub continue_conversation: bool,
    pub resume: Option<String>,
    pub settings: Option<String>,
    pub add_dirs: Vec<String>,
    pub mcp_servers: McpServers,
    pub include_partial_messages: bool,
    pub fork_session: bool,
    pub agents: Option<Vec<(String, AgentDefinition)>>,
    pub setting_sources: Option<Vec<SettingSource>>,
    pub plugins: Vec<SdkPluginConfig>,
    pub extra_args: Vec<(String, Option<String>)>,
    pub max_thinking_tokens: Option<u32>,
}

/// The views of a list of argument strings.
pub open spec fn strs_of(v: Seq<String>) -> Seq<Seq<char>> {
    v.map_values(|s: String| s@)
}

pub broadcast proof fn lemma_strs_push(v: Seq<String>, s: String)
    ensures
        #[trigger] strs_of(v.push(s)) =~= strs_of(v).push(s@),
{
    assert forall|i: int| 0 <= i < v.len() + 1 implies strs_of(v.push(s))[i] == strs_of(
        v,
    ).push(s@)[i] by {
        assert(strs_of(v.push(s))[i] == v.push(s)[i]@);
        if i < v.len() {
            assert(strs_of(v)[i] == v[i]@);
        }
    }
}

/// Comma-joined rendering of a string list.
pub open spec fn join_comma(items: Seq<Seq<char>>) -> Seq<char>
    decreases items.len(),
{
    if items.len() == 0 {
        Seq::empty()
    } else if items.len() == 1 {
        items.last()
    } else {
        join_comma(items.drop_last()) + ","@ + items.last()
    }
}

/// Joins string views with commas.
fn join_comma_exec(items: &Vec<String>) -> (r: String)
    ensures
        r@ == join_comma(strs_of(items@)),
{
    let mut out = String::new();
    let mut i: usize = 0;
    proof {
        reveal_strlit(",");
    }
    while i < items.len()
        invariant
            i <= items@.len(),
            out@ == join_comma(strs_of(items@).subrange(0, i as int)),
        decreases items@.len() - i,
    {
        if i > 0 {
            out.append(",");
        }
        out.append(items[i].as_str());
        proof {
            reveal_strlit(",");
            let pre = strs_of(items@).subrange(0, i as int);
            let cur = strs_of(items@).subrange(0, i + 1);
            assert(cur.drop_last() =~= pre);
            assert(cur.last() == items@[i as int]@) by {
                assert(strs_of(items@)[i as int] == items@[i as int]@);
            }
            if i == 0 {
                assert(out@ =~= join_comma(cur));
            } else {
                assert(out@ =~= join_comma(cur));
            }
        }
        i = i + 1;
    }
    proof {
        assert(strs_of(items@).subrange(0, items@.len() as int) =~= strs_of(items@));
    }
    out
}

/// The views of a list of setting sources.
pub open spec fn sources_strs(ss: Seq<SettingSource>) -> Seq<Seq<char>> {
    ss.map_values(|s: SettingSource| s.spec_str())
}

/// The wire object of one tool server configuration, tagged by its kind.
/// An in-process server is written as its name alone: the live handle
/// stays with the embedding program.
pub open spec fn spec_server_config_json(c: McpServerConfig) -> JsonV {
    match c {
        McpServerConfig::Stdio(s) => {
            let fields = seq![
                ("type"@, JsonV::Str("stdio"@)),
                ("command"@, JsonV::Str(s.command@)),
            ];
            let fields = match s.args {
                Some(a) => fields.push(
                    ("args"@, JsonV::Arr(a@.map_values(|x: String| JsonV::Str(x@)))),
                ),
                None => fields,
            };
            match s.env {
                Some(e) => JsonV::Obj(
                    fields.push(
                        (
                            "env"@,
                            JsonV::Obj(
                                e@.map_values(
                                    |p: (String, String)| (p.0@, JsonV::Str(p.1@)),
                                ),
                            ),
                        ),
                    ),
                ),
                None => JsonV::Obj(fields),
            }
        },
        McpServerConfig::Sse(s) => {
            let fields = seq![("type"@, JsonV::Str("sse"@)), ("url"@, JsonV::Str(s.url@))];
            match s.headers {
                Some(h) => JsonV::Obj(
                    fields.push(
                        (
                            "headers"@,
                            JsonV::Obj(
                                h@.map_values(
                                    |p: (String, String)| (p.0@, JsonV::Str(p.1@)),
                                ),
                            ),
                        ),
                    ),
                ),
                None => JsonV::Obj(fields),
            }
        },
        McpServerConfig::Http(s) => {
            let fields = seq![("type"@, JsonV::Str("http"@)), ("url"@, JsonV::Str(s.url@))];
            match s.headers {
                Some(h) => JsonV::Obj(
                    fields.push(
                        (
                            "headers"@,
                            JsonV::Obj(
                                h@.map_values(
                                    |p: (String, String)| (p.0@, JsonV::Str(p.1@)),
                                ),
                            ),
                        ),
                    ),
                ),
                None => JsonV::Obj(fields),
            }
        },
        McpServerConfig::Sdk(s) => JsonV::Obj(
            seq![("type"@, JsonV::Str("sdk"@)), ("name"@, JsonV::Str(s.name@))],
        ),
    }
}

/// The wire object handed to the child for its tool server table.
pub open spec fn spec_mcp_config_json(m: Seq<(String, McpServerConfig)>) -> JsonV {
    JsonV::Obj(
        seq![
            (
                "mcpServers"@,
                JsonV::Obj(
                    m.map_values(
                        |p: (String, McpServerConfig)| (p.0@, spec_server_config_json(p.1)),
                    ),
                ),
            ),
        ],
    )
}

/// The wire object of one agent definition; absent parts are omitted.
pub open spec fn spec_agent_json(a: AgentDefinition) -> JsonV {
    let fields = seq![
        ("description"@, JsonV::Str(a.description@)),
        ("prompt"@, JsonV::Str(a.prompt@)),
    ];
    let fields = match a.tools {
        Some(ts) => fields.push(
            ("tools"@, JsonV::Arr(ts@.map_values(|x: String| JsonV::Str(x@)))),
        ),
        None => fields,
    };
    match a.model {
        Some(m) => JsonV::Obj(fields.push(("model"@, JsonV::Str(m@)))),
        None => JsonV::Obj(fields),
    }
}

/// The wire object handed to the child for its agent table.
pub open spec fn spec_agents_json(a: Seq<(String, AgentDefinition)>) -> JsonV {
    JsonV::Obj(
        a.map_values(|p: (String, AgentDefinition)| (p.0@, spec_agent_json(p.1))),
    )
}

fn strings_json(items: &Vec<String>) -> (r: JsonValue)
    ensures
        r@ == JsonV::Arr(items@.map_values(|x: String| JsonV::Str(x@))),
{
    let mut out: Vec<JsonValue> = Vec::new();
    let mut i: usize = 0;
    while i < items.len()
        invariant
            i <= items@.len(),
            out@.len() == i,
            forall|q: int|
                0 <= q < i ==> (#[trigger] out@[q])@ == JsonV::Str(items@[q]@),
        decreases items@.len() - i,
    {
        out.push(JsonValue::Str(items[i].clone()));
        i = i + 1;
    }
    proof {
        crate::json::lemma_arr_view(out@);
        assert forall|z: int| 0 <= z < out@.len() implies crate::json::arr_view(out@)[z]
            == items@.map_values(|x: String| JsonV::Str(x@))[z] by {
            assert(crate::json::arr_view(out@)[z] == (#[trigger] out@[z])@);
        }
        assert(crate::json::arr_view(out@) =~~= items@.map_values(
            |x: String| JsonV::Str(x@),
        ));
    }
    JsonValue::Arr(out)
}

fn string_pairs_json(items: &Vec<(String, String)>) -> (r: JsonValue)
    ensures
        r@ == JsonV::Obj(
            items@.map_values(|p: (String, String)| (p.0@, JsonV::Str(p.1@))),
        ),
{
    let mut out: Vec<(String, JsonValue)> = Vec::new();
    let mut i: usize = 0;
    while i < items.len()
        invariant
            i <= items@.len(),
            out@.len() == i,
            forall|q: int|
                0 <= q < i ==> (#[trigger] out@[q]).0@ == items@[q].0@ && out@[q].1@
                    == JsonV::Str(items@[q].1@),
        decreases items@.len() - i,
    {
        let p = &items[i];
        out.push((p.0.clone(), JsonValue::Str(p.1.clone())));
        i = i + 1;
    }
    proof {
        crate::json::lemma_obj_fields_view(out@);
        assert forall|z: int| 0 <= z < out@.len() implies obj_fields_view(out@)[z]
            == items@.map_values(|p: (String, String)| (p.0@, JsonV::Str(p.1@)))[z] by {
            assert(obj_fields_view(out@)[z] == ((#[trigger] out@[z]).0@, out@[z].1@));
        }
        assert(obj_fields_view(out@) =~~= items@.map_values(
            |p: (String, String)| (p.0@, JsonV::Str(p.1@)),
        ));
    }
    JsonValue::Obj(out)
}

/// Builds the wire object of one tool server configuration.
pub fn server_config_json(c: &McpServerConfig) -> (r: JsonValue)
    ensures
        r@ == spec_server_config_json(*c),
{
    let mut fields: Vec<(String, JsonValue)> = Vec::new();
    match c {
        McpServerConfig::Stdio(s) => {
            fields.push((String::from_str("type"), JsonValue::Str(String::from_str("stdio"))));
            fields.push((String::from_str("command"), JsonValue::Str(s.command.clone())));
            if let Some(a) = &s.args {
                fields.push((String::from_str("args"), strings_json(a)));
            }
            if let Some(e) = &s.env {
                fields.push((String::from_str("env"), string_pairs_json(e)));
            }
        },
        McpServerConfig::Sse(s) => {
            fields.push((String::from_str("type"), JsonValue::Str(String::from_str("sse"))));
            fields.push((String::from_str("url"), JsonValue::Str(s.url.clone())));
            if let Some(h) = &s.headers {
                fields.push((String::from_str("headers"), string_pairs_json(h)));
            }
        },
        McpServerConfig::Http(s) => {
            fields.push((String::from_str("type"), JsonValue::Str(String::from_str("http"))));
            fields.push((String::from_str("url"), JsonValue::Str(s.url.clone())));
            if let Some(h) = &s.headers {
                fields.push((String::from_str("headers"), string_pairs_json(h)));
            }
        },
        McpServerConfig::Sdk(s) => {
            fields.push((String::from_str("type"), JsonValue::Str(String::from_str("sdk"))));
            fields.push((String::from_str("name"), JsonValue::Str(s.name.clone())));
        },
    }
    let ghost fv = fields@;
    let out = JsonValue::Obj(fields);
    proof {
        crate::json::lemma_obj_fields_view(fv);
        assert forall|z: int| 0 <= z < fv.len() implies #[trigger] obj_fields_view(fv)[z] == (
            fv[z].0@,
            fv[z].1@,
        ) by {
            assert(obj_fields_view(fv)[z] == ((#[trigger] fv[z]).0@, fv[z].1@));
        }
        assert(obj_fields_view(fv) =~~= spec_server_config_json(*c)->Obj_0);
    }
    out
}

/// Builds the tool-server table object.
pub fn mcp_config_json(m: &Vec<(String, McpServerConfig)>) -> (r: JsonValue)
    ensures
        r@ == spec_mcp_config_json(m@),
{
    let mut entries: Vec<(String, JsonValue)> = Vec::new();
    let mut i: usize = 0;
    while i < m.len()
        invariant
            i <= m@.len(),
            entries@.len() == i,
            forall|q: int|
                0 <= q < i ==> (#[trigger] entries@[q]).0@ == m@[q].0@ && entries@[q].1@
                    == spec_server_config_json(m@[q].1),
        decreases m@.len() - i,
    {
        let p = &m[i];
        entries.push((p.0.clone(), server_config_json(&p.1)));
        i = i + 1;
    }
    let ghost ev = entries@;
    let inner = JsonValue::Obj(entries);
    let mut fields: Vec<(String, JsonValue)> = Vec::new();
    fields.push((String::from_str("mcpServers"), inner));
    let ghost fv = fields@;
    let out = JsonValue::Obj(fields);
    proof {
        crate::json::lemma_obj_fields_view(ev);
        assert forall|z: int| 0 <= z < ev.len() implies obj_fields_view(ev)[z] == m@.map_values(
            |p: (String, McpServerConfig)| (p.0@, spec_server_config_json(p.1)),
        )[z] by {
            assert(obj_fields_view(ev)[z] == ((#[trigger] ev[z]).0@, ev[z].1@));
        }
        assert(obj_fields_view(ev) =~~= m@.map_values(
            |p: (String, McpServerConfig)| (p.0@, spec_server_config_json(p.1)),
        ));
        crate::json::lemma_obj_fields_view(fv);
        assert(obj_fields_view(fv)[0] == ((fv[0]).0@, fv[0].1@));
        assert(obj_fields_view(fv) =~~= spec_mcp_config_json(m@)->Obj_0);
    }
    out
}

/// Builds the agent-table object.
pub fn agents_json(a: &Vec<(String, AgentDefinition)>) -> (r: JsonValue)
    ensures
        r@ == spec_agents_json(a@),
{
    let mut entries: Vec<(String, JsonValue)> = Vec::new();
    let mut i: usize = 0;
    while i < a.len()
        invariant
            i <= a@.len(),
            entries@.len() == i,
            forall|q: int|
                0 <= q < i ==> (#[trigger] entries@[q]).0@ == a@[q].0@ && entries@[q].1@
                    == spec_agent_json(a@[q].1),
        decreases a@.len() - i,
    {
        let p = &a[i];
        let mut fields: Vec<(String, JsonValue)> = Vec::new();
        fields.push(
            (String::from_str("description"), JsonValue::Str(p.1.description.clone())),
        );
        fields.push((String::from_str("prompt"), JsonValue::Str(p.1.prompt.clone())));
        if let Some(ts) = &p.1.tools {
            fields.push((String::from_str("tools"), strings_json(ts)));
        }
        if let Some(mo) = &p.1.model {
            fields.push((String::from_str("model"), JsonValue::Str(mo.clone())));
        }
        let ghost fv = fields@;
        let obj = JsonValue::Obj(fields);
        proof {
            crate::json::lemma_obj_fields_view(fv);
            assert forall|z: int| 0 <= z < fv.len() implies #[trigger] obj_fields_view(
                fv,
            )[z] == (fv[z].0@, fv[z].1@) by {
                assert(obj_fields_view(fv)[z] == ((#[trigger] fv[z]).0@, fv[z].1@));
            }
            assert(obj_fields_view(fv) =~~= spec_agent_json(a@[i as int].1)->Obj_0);
        }
        entries.push((p.0.clone(), obj));
        i = i + 1;
    }
    let ghost ev = entries@;
    let out = JsonValue::Obj(entries);
    proof {
        crate::json::lemma_obj_fields_view(ev);
        assert forall|z: int| 0 <= z < ev.len() implies obj_fields_view(ev)[z] == a@.map_values(
            |p: (String, AgentDefinition)| (p.0@, spec_agent_json(p.1)),
        )[z] by {
            assert(obj_fields_view(ev)[z] == ((#[trigger] ev[z]).0@, ev[z].1@));
        }
        assert(obj_fields_view(ev) =~~= spec_agents_json(a@)->Obj_0);
    }
    out
}

/// Argument pairs for the added directories.
pub open spec fn dirs_args(ds: Seq<String>) -> Seq<Seq<char>>
    decreases ds.len(),
{
    if ds.len() == 0 {
        Seq::empty()
    } else {
        dirs_args(ds.drop_last()) + seq!["--add-dir"@, ds.last()@]
    }
}

/// Argument pairs for the configured plugins.
pub open spec fn plugins_args(ps: Seq<SdkPluginConfig>) -> Seq<Seq<char>>
    decreases ps.len(),
{
    if ps.len() == 0 {
        Seq::empty()
    } else {
        plugins_args(ps.drop_last()) + seq!["--plugin-dir"@, ps.last().path@]
    }
}

/// Arguments for the caller-supplied extra flags.
pub open spec fn extra_args_spec(es: Seq<(String, Option<String>)>) -> Seq<Seq<char>>
    decreases es.len(),
{
    if es.len() == 0 {
        Seq::empty()
    } else {
        extra_args_spec(es.drop_last()) + (match es.last().1 {
            Some(v) => seq!["--"@ + es.last().0@, v@],
            None => seq!["--"@ + es.last().0@],
        })
    }
}

/// The value of the setting-sources argument.
pub open spec fn spec_sources_value(ss: Option<Vec<SettingSource>>) -> Seq<char> {
    match ss {
        Some(x) => join_comma(sources_strs(x@)),
        None => Seq::empty(),
    }
}

/// Whether any tool server configuration was given.
pub open spec fn spec_has_mcp(m: McpServers) -> bool {
    match m {
        McpServers::Table(t) => t@.len() > 0,
        McpServers::Inline(s) => spec_trim(s@).len() > 0,
        McpServers::Path(_) => true,
    }
}

/// The value of the tool-server configuration argument.
pub open spec fn spec_mcp_arg(m: McpServers) -> Seq<char> {
    match m {
        McpServers::Inline(s) => s@,
        McpServers::Path(p) => p@,
        McpServers::Table(t) => decode_utf8(
            crate::codec::ser_value(spec_mcp_config_json(t@)),
        ),
    }
}

/// The fixed options and the plain optional sections, in order.
pub open spec fn spec_head_a(o: CommandOptions) -> Seq<Seq<char>> {
    let args = seq!["--output-format"@, "stream-json"@, "--verbose"@];
    let args = args + (match o.system_prompt {
        None => seq!["--system-prompt"@, Seq::<char>::empty()],
        Some(SystemPrompt::Text(t)) => seq!["--system-prompt"@, t@],
        Some(SystemPrompt::Preset(p)) => match p.append {
            Some(a) => seq!["--append-system-prompt"@, a@],
            None => Seq::empty(),
        },
    });
    let args = if o.allowed_tools@.len() > 0 {
        args + seq!["--allowedTools"@, join_comma(strs_of(o.allowed_tools@))]
    } else {
        args
    };
    let args = match o.max_turns {
        Some(n) => args + seq!["--max-turns"@, dec_digits(n as int)],
        None => args,
    };
    let args = match o.max_budget_usd {
        Some(b) => args + seq!["--max-budget-usd"@, b@],
        None => args,
    };
    if o.disallowed_tools@.len() > 0 {
        args + seq!["--disallowedTools"@, join_comma(strs_of(o.disallowed_tools@))]
    } else {
        args
    }
}

pub open spec fn spec_head_b(o: CommandOptions) -> Seq<Seq<char>> {
    let args = match o.model {
        Some(m) => seq!["--model"@, m@],
        None => Seq::<Seq<char>>::empty(),
    };
    let args = match o.permission_prompt_tool_name {
        Some(tname) => args + seq!["--permission-prompt-tool"@, tname@],
        None => args,
    };
    let args = match o.permission_mode {
        Some(m) => args + seq!["--permission-mode"@, m.spec_str()],
        None => args,
    };
    let args = if o.continue_conversation {
        args + seq!["--continue"@]
    } else {
        args
    };
    let args = match o.resume {
        Some(rv) => args + seq!["--resume"@, rv@],
        None => args,
    };
    match o.settings {
        Some(s) => args + seq!["--settings"@, s@],
        None => args,
    }
}

/// The fixed options and the plain optional sections, in order.
pub open spec fn spec_head_args(o: CommandOptions) -> Seq<Seq<char>> {
    spec_head_a(o) + spec_head_b(o)
}

/// The tool-server, streaming, fork, agent and setting-source sections.
pub open spec fn spec_mid_args(o: CommandOptions) -> Seq<Seq<char>> {
    let args = if spec_has_mcp(o.mcp_servers) {
        seq!["--mcp-config"@, spec_mcp_arg(o.mcp_servers)]
    } else {
        Seq::empty()
    };
    let args = if o.include_partial_messages {
        args + seq!["--include-partial-messages"@]
    } else {
        args
    };
    let args = if o.fork_session {
        args + seq!["--fork-session"@]
    } else {
        args
    };
    let args = match o.agents {
        Some(a) => if a@.len() > 0 {
            args + seq![
                "--agents"@,
                decode_utf8(crate::codec::ser_value(spec_agents_json(a@))),
            ]
        } else {
            args
        },
        None => args,
    };
    args + seq!["--setting-sources"@, spec_sources_value(o.setting_sources)]
}

/// The prompt-mode and thinking-bound sections.
pub open spec fn spec_end_args(prompt: PromptMode, o: CommandOptions) -> Seq<Seq<char>> {
    let args = match prompt {
        PromptMode::Streaming => seq!["--input-format"@, "stream-json"@],
        PromptMode::Text(p) => seq!["--print"@, "--"@, p@],
    };
    match o.max_thinking_tokens {
        Some(n) => args + seq!["--max-thinking-tokens"@, dec_digits(n as int)],
        None => args,
    }
}

/// The complete argument vector handed to the child process, in order: the
/// fixed output options, then one optional section per option, the added
/// directories, the tool-server table, the agent table, the setting
/// sources, the plugins, the extra flags, the prompt mode, and the
/// thinking bound.
pub open spec fn spec_command_args(prompt: PromptMode, o: CommandOptions) -> Seq<Seq<char>> {
    spec_head_args(o) + dirs_args(o.add_dirs@) + spec_mid_args(o) + plugins_args(o.plugins@)
        + extra_args_spec(o.extra_args@) + spec_end_args(prompt, o)
}

/// Builds the child's argument vector from the options. Fails only when a
/// serialized configuration table is not valid text, which no value built
/// by this library produces.
pub fn build_command(prompt: &PromptMode, o: &CommandOptions) -> (r: Result<
    Vec<String>,
    crate::error::SdkError,
>)
    ensures
        r matches Ok(args) ==> strs_of(args@) == spec_command_args(*prompt, *o),
{
    let mut args: Vec<String> = Vec::new();
    push_head_args(&mut args, o);
    push_dir_args(&mut args, o);
    match push_mid_args(&mut args, o) {
        Ok(()) => {},
        Err(e) => {
            return Err(e);
        },
    }
    push_plugin_args(&mut args, o);
    push_extra_args(&mut args, o);
    push_end_args(&mut args, prompt, o);
    proof {
        assert(strs_of(args@) =~= spec_command_args(*prompt, *o));
    }
    Ok(args)
}

#[verifier::spinoff_prover]
#[verifier::rlimit(100)]
fn push_head_args(args: &mut Vec<String>, o: &CommandOptions)
    requires
        old(args)@.len() == 0,
    ensures
        strs_of(final(args)@) == spec_head_args(*o),
{
    push_head_a(args, o);
    push_head_b(args, o);
}

#[verifier::spinoff_prover]
#[verifier::rlimit(100)]
fn push_head_a(args: &mut Vec<String>, o: &CommandOptions)
    requires
        old(args)@.len() == 0,
    ensures
        strs_of(final(args)@) == spec_head_a(*o),
{
    broadcast use lemma_strs_push;

    let ghost mut g: Seq<Seq<char>> = Seq::empty();
    args.push(String::from_str("--output-format"));
    args.push(String::from_str("stream-json"));
    args.push(String::from_str("--verbose"));
    proof {
        g = seq!["--output-format"@, "stream-json"@, "--verbose"@];
        assert(strs_of(args@) =~= g);
    }
    match &o.system_prompt {
        None => {
            args.push(String::from_str("--system-prompt"));
            args.push(String::new());
            proof {
                g = g + seq!["--system-prompt"@, Seq::<char>::empty()];
                assert(strs_of(args@) =~= g);
            }
        },
        Some(SystemPrompt::Text(tx)) => {
            args.push(String::from_str("--system-prompt"));
            args.push(tx.clone());
            proof {
                g = g + seq!["--system-prompt"@, tx@];
                assert(strs_of(args@) =~= g);
            }
        },
        Some(SystemPrompt::Preset(p)) => {
            if let Some(a) = &p.append {
                args.push(String::from_str("--append-system-prompt"));
                args.push(a.clone());
                proof {
                    g = g + seq!["--append-system-prompt"@, a@];
                    assert(strs_of(args@) =~= g);
                }
            } else {
                proof {
                    g = g + Seq::<Seq<char>>::empty();
                    assert(strs_of(args@) =~= g);
                }
            }
        },
    }
    if o.allowed_tools.len() > 0 {
        let joined = join_comma_exec(&o.allowed_tools);
        args.push(String::from_str("--allowedTools"));
        args.push(joined);
        proof {
            g = g + seq!["--allowedTools"@, join_comma(strs_of(o.allowed_tools@))];
            assert(strs_of(args@) =~= g);
        }
    }
    if let Some(n) = o.max_turns {
        args.push(String::from_str("--max-turns"));
        args.push(crate::text::u64_to_string(n as u64));
        proof {
            g = g + seq!["--max-turns"@, dec_digits(n as int)];
            assert(strs_of(args@) =~= g);
        }
    }
    if let Some(b) = &o.max_budget_usd {
        args.push(String::from_str("--max-budget-usd"));
        args.push(b.clone());
        proof {
            g = g + seq!["--max-budget-usd"@, b@];
            assert(strs_of(args@) =~= g);
        }
    }
    if o.disallowed_tools.len() > 0 {
        let joined = join_comma_exec(&o.disallowed_tools);
        args.push(String::from_str("--disallowedTools"));
        args.push(joined);
        proof {
            g = g + seq!["--disallowedTools"@, join_comma(strs_of(o.disallowed_tools@))];
            assert(strs_of(args@) =~= g);
        }
    }
    proof {
        assert(g =~= spec_head_a(*o));
    }
}

#[verifier::spinoff_prover]
#[verifier::rlimit(100)]
fn push_head_b(args: &mut Vec<String>, o: &CommandOptions)
    ensures
        strs_of(final(args)@) == strs_of(old(args)@) + spec_head_b(*o),
{
    broadcast use lemma_strs_push;

    let ghost base = strs_of(args@);
    let ghost mut g: Seq<Seq<char>> = Seq::empty();
    proof {
        assert(strs_of(args@) =~= base + g);
    }
    if let Some(m) = &o.model {
        args.push(String::from_str("--model"));
        args.push(m.clone());
        proof {
            g = g + seq!["--model"@, m@];
            assert(strs_of(args@) =~= base + g);
        }
    }
    if let Some(tname) = &o.permission_prompt_tool_name {
        args.push(String::from_str("--permission-prompt-tool"));
        args.push(tname.clone());
        proof {
            g = g + seq!["--permission-prompt-tool"@, tname@];
            assert(strs_of(args@) =~= base + g);
        }
    }
    if let Some(m) = &o.permission_mode {
        args.push(String::from_str("--permission-mode"));
        args.push(String::from_str(m.as_str()));
        proof {
            g = g + seq!["--permission-mode"@, m.spec_str()];
            assert(strs_of(args@) =~= base + g);
        }
    }
    if o.continue_conversation {
        args.push(String::from_str("--continue"));
        proof {
            g = g + seq!["--continue"@];
            assert(strs_of(args@) =~= base + g);
        }
    }
    if let Some(rv) = &o.resume {
        args.push(String::from_str("--resume"));
        args.push(rv.clone());
        proof {
            g = g + seq!["--resume"@, rv@];
            assert(strs_of(args@) =~= base + g);
        }
    }
    if let Some(s) = &o.settings {
        args.push(String::from_str("--settings"));
        args.push(s.clone());
        proof {
            g = g + seq!["--settings"@, s@];
            assert(strs_of(args@) =~= base + g);
        }
    }
    proof {
        assert(g =~= spec_head_b(*o));
    }
}

#[verifier::spinoff_prover]
fn push_dir_args(args: &mut Vec<String>, o: &CommandOptions)
    ensures
        strs_of(final(args)@) == strs_of(old(args)@) + dirs_args(o.add_dirs@),
{
    let ghost base = strs_of(args@);
    let mut di: usize = 0;
    while di < o.add_dirs.len()
        invariant
            di <= o.add_dirs@.len(),
            strs_of(args@) == base + dirs_args(o.add_dirs@.subrange(0, di as int)),
        decreases o.add_dirs@.len() - di,
    {
        broadcast use lemma_strs_push;

        args.push(String::from_str("--add-dir"));
        args.push(o.add_dirs[di].clone());
        proof {
            let pre = o.add_dirs@.subrange(0, di as int);
            let cur = o.add_dirs@.subrange(0, di + 1);
            assert(cur.drop_last() =~= pre);
            assert(strs_of(args@) =~= base + dirs_args(cur));
        }
        di = di + 1;
    }
    proof {
        assert(o.add_dirs@.subrange(0, o.add_dirs@.len() as int) =~= o.add_dirs@);
        assert(dirs_args(o.add_dirs@.subrange(0, 0)).len() == 0);
    }
}

#[verifier::spinoff_prover]
#[verifier::rlimit(100)]
fn push_mid_args(args: &mut Vec<String>, o: &CommandOptions) -> (r: Result<
    (),
    crate::error::SdkError,
>)
    ensures
        r is Ok ==> strs_of(final(args)@) == strs_of(old(args)@) + spec_mid_args(*o),
{
    broadcast use lemma_strs_push;

    let ghost base = strs_of(args@);
    let ghost mut g: Seq<Seq<char>> = Seq::empty();
    proof {
        assert(strs_of(args@) =~= base + g);
    }
    let has_mcp = match &o.mcp_servers {
        McpServers::Table(tbl) => tbl.len() > 0,
        McpServers::Inline(s) => !crate::transport::trim_is_empty(s.as_str()),
        McpServers::Path(_) => true,
    };
    if has_mcp {
        let arg: String = match &o.mcp_servers {
            McpServers::Inline(s) => s.clone(),
            McpServers::Path(p) => p.clone(),
            McpServers::Table(tbl) => {
                let j = mcp_config_json(tbl);
                let bytes = crate::codec::write_json(&j);
                match crate::text::string_from_bytes(bytes.as_slice()) {
                    Some(s) => s,
                    None => {
                        proof {
                            reveal_strlit("tool server configuration is not valid text");
                        }
                        return Err(
                            crate::error::SdkError::Message(
                                String::from_str("tool server configuration is not valid text"),
                            ),
                        );
                    },
                }
            },
        };
        args.push(String::from_str("--mcp-config"));
        args.push(arg);
        proof {
            g = seq!["--mcp-config"@, spec_mcp_arg(o.mcp_servers)];
            assert(strs_of(args@) =~= base + g);
        }
    }
    if o.include_partial_messages {
        args.push(String::from_str("--include-partial-messages"));
        proof {
            g = g + seq!["--include-partial-messages"@];
            assert(strs_of(args@) =~= base + g);
        }
    }
    if o.fork_session {
        args.push(String::from_str("--fork-session"));
        proof {
            g = g + seq!["--fork-session"@];
            assert(strs_of(args@) =~= base + g);
        }
    }
    if let Some(a) = &o.agents {
        if a.len() > 0 {
            let j = agents_json(a);
            let bytes = crate::codec::write_json(&j);
            let rendered = match crate::text::string_from_bytes(bytes.as_slice()) {
                Some(s) => s,
                None => {
                    proof {
                        reveal_strlit("agent configuration is not valid text");
                    }
                    return Err(
                        crate::error::SdkError::Message(
                            String::from_str("agent configuration is not valid text"),
                        ),
                    );
                },
            };
            args.push(String::from_str("--agents"));
            args.push(rendered);
            proof {
                g = g + seq![
                    "--agents"@,
                    decode_utf8(crate::codec::ser_value(spec_agents_json(a@))),
                ];
                assert(strs_of(args@) =~= base + g);
            }
        }
    }
    let sources_value: String = match &o.setting_sources {
        Some(ss) => {
            let mut names: Vec<String> = Vec::new();
            let mut si: usize = 0;
            while si < ss.len()
                invariant
                    si <= ss@.len(),
                    names@.len() == si,
                    forall|q: int| 0 <= q < si ==> (#[trigger] names@[q])@ == ss@[q].spec_str(),
                decreases ss@.len() - si,
            {
                names.push(String::from_str(ss[si].as_str()));
                si = si + 1;
            }
            let joined = join_comma_exec(&names);
            proof {
                assert forall|q: int| 0 <= q < names@.len() implies strs_of(names@)[q]
                    == sources_strs(ss@)[q] by {
                    assert(strs_of(names@)[q] == (#[trigger] names@[q])@);
                    assert(sources_strs(ss@)[q] == ss@[q].spec_str());
                }
                assert(strs_of(names@) =~= sources_strs(ss@));
            }
            joined
        },
        None => String::new(),
    };
    args.push(String::from_str("--setting-sources"));
    args.push(sources_value);
    proof {
        g = g + seq!["--setting-sources"@, spec_sources_value(o.setting_sources)];
        assert(strs_of(args@) =~= base + g);
        assert(g =~= spec_mid_args(*o));
    }
    Ok(())
}

#[verifier::spinoff_prover]
fn push_plugin_args(args: &mut Vec<String>, o: &CommandOptions)
    ensures
        strs_of(final(args)@) == strs_of(old(args)@) + plugins_args(o.plugins@),
{
    let ghost base = strs_of(args@);
    let mut pi: usize = 0;
    while pi < o.plugins.len()
        invariant
            pi <= o.plugins@.len(),
            strs_of(args@) == base + plugins_args(o.plugins@.subrange(0, pi as int)),
        decreases o.plugins@.len() - pi,
    {
        broadcast use lemma_strs_push;

        match o.plugins[pi].kind {
            SdkPluginKind::Local => {
                args.push(String::from_str("--plugin-dir"));
                args.push(o.plugins[pi].path.clone());
            },
        }
        proof {
            let pre = o.plugins@.subrange(0, pi as int);
            let cur = o.plugins@.subrange(0, pi + 1);
            assert(cur.drop_last() =~= pre);
            assert(strs_of(args@) =~= base + plugins_args(cur));
        }
        pi = pi + 1;
    }
    proof {
        assert(o.plugins@.subrange(0, o.plugins@.len() as int) =~= o.plugins@);
        assert(plugins_args(o.plugins@.subrange(0, 0)).len() == 0);
    }
}

#[verifier::spinoff_prover]
fn push_extra_args(args: &mut Vec<String>, o: &CommandOptions)
    ensures
        strs_of(final(args)@) == strs_of(old(args)@) + extra_args_spec(o.extra_args@),
{
    let ghost base = strs_of(args@);
    let mut ei: usize = 0;
    while ei < o.extra_args.len()
        invariant
            ei <= o.extra_args@.len(),
            strs_of(args@) == base + extra_args_spec(o.extra_args@.subrange(0, ei as int)),
        decreases o.extra_args@.len() - ei,
    {
        broadcast use lemma_strs_push;

        let pair = &o.extra_args[ei];
        let mut flag = String::from_str("--");
        flag.append(pair.0.as_str());
        args.push(flag);
        if let Some(v) = &pair.1 {
            args.push(v.clone());
        }
        proof {
            reveal_strlit("--");
            let pre = o.extra_args@.subrange(0, ei as int);
            let cur = o.extra_args@.subrange(0, ei + 1);
            assert(cur.drop_last() =~= pre);
            assert(strs_of(args@) =~= base + extra_args_spec(cur));
        }
        ei = ei + 1;
    }
    proof {
        assert(o.extra_args@.subrange(0, o.extra_args@.len() as int) =~= o.extra_args@);
        assert(extra_args_spec(o.extra_args@.subrange(0, 0)).len() == 0);
    }
}

#[verifier::spinoff_prover]
fn push_end_args(args: &mut Vec<String>, prompt: &PromptMode, o: &CommandOptions)
    ensures
        strs_of(final(args)@) == strs_of(old(args)@) + spec_end_args(*prompt, *o),
{
    broadcast use lemma_strs_push;

    let ghost base = strs_of(args@);
    let ghost mut g: Seq<Seq<char>> = Seq::empty();
    match prompt {
        PromptMode::Streaming => {
            args.push(String::from_str("--input-format"));
            args.push(String::from_str("stream-json"));
            proof {
                g = seq!["--input-format"@, "stream-json"@];
                assert(strs_of(args@) =~= base + g);
            }
        },
        PromptMode::Text(p) => {
            args.push(String::from_str("--print"));
            args.push(String::from_str("--"));
            args.push(p.clone());
            proof {
                g = seq!["--print"@, "--"@, p@];
                assert(strs_of(args@) =~= base + g);
            }
        },
    }
    if let Some(n) = o.max_thinking_tokens {
        args.push(String::from_str("--max-thinking-tokens"));
        args.push(crate::text::u64_to_string(n as u64));
        proof {
            g = g + seq!["--max-thinking-tokens"@, dec_digits(n as int)];
            assert(strs_of(args@) =~= base + g);
        }
    }
    proof {
        assert(g =~= spec_end_args(*prompt, *o));
    }
}

} // verus!
