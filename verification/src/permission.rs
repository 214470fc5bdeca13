//! Permission handling: modes, rule updates, and the wire payloads built
//! from them.

use vstd::prelude::*;

use crate::json::{obj_fields_view, JsonV, JsonValue};
use vstd::string::StringExecFns;

verus! {

/// Permission mode requested from the agent.
#[derive(Debug, Clone, Copy, PartialEq, Eq)]
pub enum PermissionMode {
    Default,
    AcceptEdits,
    Plan,
    BypassPermissions,
}

impl PermissionMode {
    pub open spec fn spec_str(&self) -> Seq<char> {
        match self {
            PermissionMode::Default => "default"@,
            PermissionMode::AcceptEdits => "acceptEdits"@,
            PermissionMode::Plan => "plan"@,
            PermissionMode::BypassPermissions => "bypassPermissions"@,
        }
    }

    pub fn as_str(&self) -> (r: &'static str)
        ensures
            r@ == self.spec_str(),
    {
        match self {
            PermissionMode::Default => "default",
            PermissionMode::AcceptEdits => "acceptEdits",
            PermissionMode::Plan => "plan",
            PermissionMode::BypassPermissions => "bypassPermissions",
        }
    }
}

/// Destination for a permission update.
#[derive(Debug, Clone, Copy, PartialEq, Eq)]
pub enum PermissionUpdateDestination {
    UserSettings,
    ProjectSettings,
    LocalSettings,
    Session,
}

impl PermissionUpdateDestination {
    pub open spec fn spec_str(&self) -> Seq<char> {
        match self {
            PermissionUpdateDestination::UserSettings => "userSettings"@,
            PermissionUpdateDestination::ProjectSettings => "projectSettings"@,
            PermissionUpdateDestination::LocalSettings => "localSettings"@,
            PermissionUpdateDestination::Session => "session"@,
        }
    }

    pub fn as_str(&self) -> (r: &'static str)
        ensures
            r@ == self.spec_str(),
    {
        match self {
            PermissionUpdateDestination::UserSettings => "userSettings",
            PermissionUpdateDestination::ProjectSettings => "projectSettings",
            PermissionUpdateDestination::LocalSettings => "localSettings",
            PermissionUpdateDestination::Session => "session",
        }
    }
}

/// Behaviour carried by a permission update.
#[derive(Debug, Clone, Copy, PartialEq, Eq)]
pub enum PermissionBehavior {
    Allow,
    Deny,
    Ask,
}

impl PermissionBehavior {
    pub open spec fn spec_str(&self) -> Seq<char> {
        match self {
            PermissionBehavior::Allow => "allow"@,
            PermissionBehavior::Deny => "deny"@,
            PermissionBehavior::Ask => "ask"@,
        }
    }

    pub fn as_str(&self) -> (r: &'static str)
        ensures
            r@ == self.spec_str(),
    {
        match self {
            PermissionBehavior::Allow => "allow",
            PermissionBehavior::Deny => "deny",
            PermissionBehavior::Ask => "ask",
        }
    }
}

/// One permission rule.
#[derive(Debug)]
pub struct PermissionRuleValue {
    pub tool_name: String,
    pub rule_content: Option<String>,
}

impl PermissionRuleValue {
    pub fn new(tool_name: &str, rule_content: Option<String>) -> (r: PermissionRuleValue)
        ensures
            r.tool_name@ == tool_name@,
            r.rule_content == rule_content,
    {
        PermissionRuleValue { tool_name: String::from_str(tool_name), rule_content }
    }
}

/// Kind of a permission update operation.
#[derive(Debug, Clone, Copy, PartialEq, Eq)]
pub enum PermissionUpdateKind {
    AddRules,
    ReplaceRules,
    RemoveRules,
    SetMode,
    AddDirectories,
    RemoveDirectories,
}

impl PermissionUpdateKind {
    pub open spec fn spec_str(&self) -> Seq<char> {
        match self {
            PermissionUpdateKind::AddRules => "addRules"@,
            PermissionUpdateKind::ReplaceRules => "replaceRules"@,
            PermissionUpdateKind::RemoveRules => "removeRules"@,
            PermissionUpdateKind::SetMode => "setMode"@,
            PermissionUpdateKind::AddDirectories => "addDirectories"@,
            PermissionUpdateKind::RemoveDirectories => "removeDirectories"@,
        }
    }

    pub fn as_str(&self) -> (r: &'static str)
        ensures
            r@ == self.spec_str(),
    {
        match self {
            PermissionUpdateKind::AddRules => "addRules",
            PermissionUpdateKind::ReplaceRules => "replaceRules",
            PermissionUpdateKind::RemoveRules => "removeRules",
            PermissionUpdateKind::SetMode => "setMode",
            PermissionUpdateKind::AddDirectories => "addDirectories",
            PermissionUpdateKind::RemoveDirectories => "removeDirectories",
        }
    }
}

/// Update payload sent back to the agent.
#[derive(Debug)]
pub struct PermissionUpdate {
    pub kind: PermissionUpdateKind,
    pub rules: Option<Vec<PermissionRuleValue>>,
    pub behavior: Option<PermissionBehavior>,
    pub mode: Option<PermissionMode>,
    pub directories: Option<Vec<String>>,
    pub destination: Option<PermissionUpdateDestination>,
}

/// The wire object for one rule: its tool name, then the rule content when
/// present.
pub open spec fn spec_rule_payload(r: PermissionRuleValue) -> JsonV {
    match r.rule_content {
        Some(c) => JsonV::Obj(
            seq![("toolName"@, JsonV::Str(r.tool_name@)), ("ruleContent"@, JsonV::Str(c@))],
        ),
        None => JsonV::Obj(seq![("toolName"@, JsonV::Str(r.tool_name@))]),
    }
}

pub open spec fn spec_rules_payload(rules: Seq<PermissionRuleValue>) -> Seq<JsonV> {
    rules.map_values(|r: PermissionRuleValue| spec_rule_payload(r))
}

pub open spec fn spec_strings_payload(items: Seq<String>) -> Seq<JsonV> {
    items.map_values(|s: String| JsonV::Str(s@))
}

/// The wire fields of a permission update, in order: its kind, then each
/// optional part that is present.
pub open spec fn spec_update_fields(u: PermissionUpdate) -> Seq<(Seq<char>, JsonV)> {
    let fields = seq![("type"@, JsonV::Str(u.kind.spec_str()))];
    let fields = match u.rules {
        Some(rs) => fields.push(("rules"@, JsonV::Arr(spec_rules_payload(rs@)))),
        None => fields,
    };
    let fields = match u.behavior {
        Some(b) => fields.push(("behavior"@, JsonV::Str(b.spec_str()))),
        None => fields,
    };
    let fields = match u.mode {
        Some(m) => fields.push(("mode"@, JsonV::Str(m.spec_str()))),
        None => fields,
    };
    let fields = match u.directories {
        Some(ds) => fields.push(("directories"@, JsonV::Arr(spec_strings_payload(ds@)))),
        None => fields,
    };
    match u.destination {
        Some(d) => fields.push(("destination"@, JsonV::Str(d.spec_str()))),
        None => fields,
    }
}

/// The complete wire payload of one permission update.
pub open spec fn spec_update_payload(u: PermissionUpdate) -> JsonV {
    JsonV::Obj(spec_update_fields(u))
}

impl PermissionUpdate {
    pub fn new(kind: PermissionUpdateKind) -> (r: PermissionUpdate)
        ensures
            r.kind == kind,
            r.rules is None,
            r.behavior is None,
            r.mode is None,
            r.directories is None,
            r.destination is None,
    {
        PermissionUpdate {
            kind,
            rules: None,
            behavior: None,
            mode: None,
            directories: None,
            destination: None,
        }
    }

    pub fn with_destination(self, destination: PermissionUpdateDestination) -> (r:
        PermissionUpdate)
        ensures
            r == (PermissionUpdate { destination: Some(destination), ..self }),
    {
        PermissionUpdate { destination: Some(destination), ..self }
    }

    pub fn with_rules(self, rules: Vec<PermissionRuleValue>) -> (r: PermissionUpdate)
        ensures
            r == (PermissionUpdate { rules: Some(rules), ..self }),
    {
        PermissionUpdate { rules: Some(rules), ..self }
    }

    pub fn with_behavior(self, behavior: PermissionBehavior) -> (r: PermissionUpdate)
        ensures
            r == (PermissionUpdate { behavior: Some(behavior), ..self }),
    {
        PermissionUpdate { behavior: Some(behavior), ..self }
    }

    pub fn with_mode(self, mode: PermissionMode) -> (r: PermissionUpdate)
        ensures
            r == (PermissionUpdate { mode: Some(mode), ..self }),
    {
        PermissionUpdate { mode: Some(mode), ..self }
    }

    pub fn with_directories(self, directories: Vec<String>) -> (r: PermissionUpdate)
        ensures
            r == (PermissionUpdate { directories: Some(directories), ..self }),
    {
        PermissionUpdate { directories: Some(directories), ..self }
    }

    /// Renders this update as its control-protocol payload.
    pub fn to_control_payload(&self) -> (r: JsonValue)
        ensures
            r@ == spec_update_payload(*self),
    {
        let mut fields: Vec<(String, JsonValue)> = Vec::new();
        fields.push((String::from_str("type"), JsonValue::Str(String::from_str(self.kind.as_str()))));
        if let Some(rs) = &self.rules {
            let mut items: Vec<JsonValue> = Vec::new();
            let mut i: usize = 0;
            while i < rs.len()
                invariant
                    i <= rs@.len(),
                    items@.len() == i,
                    forall|q: int|
                        0 <= q < i ==> (#[trigger] items@[q])@ == spec_rule_payload(rs@[q]),
                decreases rs@.len() - i,
            {
                let rv = &rs[i];
                let mut rf: Vec<(String, JsonValue)> = Vec::new();
                rf.push((String::from_str("toolName"), JsonValue::Str(rv.tool_name.clone())));
                if let Some(c) = &rv.rule_content {
                    rf.push((String::from_str("ruleContent"), JsonValue::Str(c.clone())));
                }
                let ghost rfv = rf@;
                let rj = JsonValue::Obj(rf);
                proof {
                    crate::json::lemma_obj_fields_view(rfv);
                    assert(rfv[0].0@ == "toolName"@ && rfv[0].1@ == JsonV::Str(
                        rs@[i as int].tool_name@,
                    ));
                    assert(obj_fields_view(rfv)[0] == ("toolName"@, JsonV::Str(
                        rs@[i as int].tool_name@,
                    )));
                    match rs@[i as int].rule_content {
                        Some(c) => {
                            assert(rfv[1].0@ == "ruleContent"@ && rfv[1].1@ == JsonV::Str(c@));
                            assert(obj_fields_view(rfv)[1] == ("ruleContent"@, JsonV::Str(c@)));
                            assert(obj_fields_view(rfv) =~~= seq![
                                ("toolName"@, JsonV::Str(rs@[i as int].tool_name@)),
                                ("ruleContent"@, JsonV::Str(c@)),
                            ]);
                        },
                        None => {
                            assert(obj_fields_view(rfv) =~~= seq![
                                ("toolName"@, JsonV::Str(rs@[i as int].tool_name@)),
                            ]);
                        },
                    }
                    assert(rj@ == spec_rule_payload(rs@[i as int]));
                }
                items.push(rj);
                i = i + 1;
            }
            proof {
                crate::json::lemma_arr_view(items@);
                assert forall|z: int| 0 <= z < rs@.len() implies crate::json::arr_view(
                    items@,
                )[z] == spec_rules_payload(rs@)[z] by {
                    assert(crate::json::arr_view(items@)[z] == items@[z]@);
                    assert(spec_rules_payload(rs@)[z] == spec_rule_payload(rs@[z]));
                }
                assert(crate::json::arr_view(items@) =~~= spec_rules_payload(rs@));
            }
            fields.push((String::from_str("rules"), JsonValue::Arr(items)));
        }
        if let Some(b) = &self.behavior {
            fields.push((String::from_str("behavior"), JsonValue::Str(String::from_str(b.as_str()))));
        }
        if let Some(m) = &self.mode {
            fields.push((String::from_str("mode"), JsonValue::Str(String::from_str(m.as_str()))));
        }
        if let Some(ds) = &self.directories {
            let mut items: Vec<JsonValue> = Vec::new();
            let mut i: usize = 0;
            while i < ds.len()
                invariant
                    i <= ds@.len(),
                    items@.len() == i,
                    forall|q: int|
                        0 <= q < i ==> (#[trigger] items@[q])@ == JsonV::Str(ds@[q]@),
                decreases ds@.len() - i,
            {
                items.push(JsonValue::Str(ds[i].clone()));
                i = i + 1;
            }
            proof {
                crate::json::lemma_arr_view(items@);
                assert forall|z: int| 0 <= z < ds@.len() implies crate::json::arr_view(
                    items@,
                )[z] == spec_strings_payload(ds@)[z] by {
                    assert(crate::json::arr_view(items@)[z] == items@[z]@);
                    assert(spec_strings_payload(ds@)[z] == JsonV::Str(ds@[z]@));
                }
                assert(crate::json::arr_view(items@) =~~= spec_strings_payload(ds@));
            }
            fields.push((String::from_str("directories"), JsonValue::Arr(items)));
        }
        if let Some(d) = &self.destination {
            fields.push((String::from_str("destination"), JsonValue::Str(String::from_str(d.as_str()))));
        }
        let ghost fv = fields@;
        let out = JsonValue::Obj(fields);
        proof {
            crate::json::lemma_obj_fields_view(fv);
            let want = spec_update_fields(*self);
            assert forall|z: int| 0 <= z < fv.len() implies obj_fields_view(fv)[z] == (
                fv[z].0@,
                fv[z].1@,
            ) by {
                assert(obj_fields_view(fv)[z] == ((#[trigger] fv[z]).0@, fv[z].1@));
            }
            assert(obj_fields_view(fv) =~~= want);
            assert(out@ == spec_update_payload(*self));
        }
        out
    }
}

/// Renders a list of updates as their wire payloads, in order.
pub fn serialize_permission_updates(updates: &Vec<PermissionUpdate>) -> (r: Vec<JsonValue>)
    ensures
        r@.len() == updates@.len(),
        forall|i: int|
            0 <= i < updates@.len() ==> (#[trigger] r@[i])@ == spec_update_payload(updates@[i]),
{
    let mut out: Vec<JsonValue> = Vec::new();
    let mut i: usize = 0;
    while i < updates.len()
        invariant
            i <= updates@.len(),
            out@.len() == i,
            forall|q: int|
                0 <= q < i ==> (#[trigger] out@[q])@ == spec_update_payload(updates@[q]),
        decreases updates@.len() - i,
    {
        out.push(updates[i].to_control_payload());
        i = i + 1;
    }
    out
}

/// Context passed to tool permission callbacks.
#[derive(Debug)]
pub struct ToolPermissionContext {
    pub signal: Option<JsonValue>,
    pub suggestions: Vec<PermissionUpdate>,
}

/// Result variant for allowing a tool request.
#[derive(Debug)]
pub struct PermissionResultAllow {
    pub updated_input: Option<JsonValue>,
    pub updated_permissions: Option<Vec<PermissionUpdate>>,
}

/// Result variant for denying a tool request.
#[derive(Debug)]
pub struct PermissionResultDeny {
    pub message: String,
    pub interrupt: bool,
}

/// Union of permission results.
#[derive(Debug)]
pub enum PermissionResult {
    Allow(PermissionResultAllow),
    Deny(PermissionResultDeny),
}

/// How a decoded rule relates to its wire object.
pub open spec fn rule_of(v: JsonV, r: PermissionRuleValue) -> bool {
    &&& crate::message_parser::get_str(v, "toolName"@) == Some(r.tool_name@)
    &&& match r.rule_content {
        Some(c) => crate::message_parser::get_str(v, "ruleContent"@) == Some(c@),
        None => crate::json::spec_get(v, "ruleContent"@) is None,
    }
}

pub open spec fn rules_of(es: Seq<JsonV>, rs: Seq<PermissionRuleValue>) -> bool {
    &&& rs.len() == es.len()
    &&& forall|i: int| 0 <= i < es.len() ==> rule_of(#[trigger] es[i], rs[i])
}

/// How a decoded update relates to its wire object. Every field of the
/// update is pinned to the corresponding wire field.
pub open spec fn update_of(v: JsonV, u: PermissionUpdate) -> bool {
    &&& crate::message_parser::get_str(v, "type"@) == Some(u.kind.spec_str())
    &&& match u.rules {
        Some(rs) => crate::json::spec_get(v, "rules"@) matches Some(rv) && rv matches
            JsonV::Arr(es) && rules_of(es, rs@),
        None => crate::json::spec_get(v, "rules"@) is None,
    }
    &&& match u.behavior {
        Some(b) => crate::message_parser::get_str(v, "behavior"@) == Some(b.spec_str()),
        None => crate::json::spec_get(v, "behavior"@) is None,
    }
    &&& match u.mode {
        Some(m) => crate::message_parser::get_str(v, "mode"@) == Some(m.spec_str()),
        None => crate::json::spec_get(v, "mode"@) is None,
    }
    &&& match u.directories {
        Some(ds) => crate::json::spec_get(v, "directories"@) matches Some(dv) && dv matches
            JsonV::Arr(es) && es.len() == ds@.len() && (forall|i: int|
            0 <= i < es.len() ==> #[trigger] es[i] == JsonV::Str(ds@[i]@)),
        None => crate::json::spec_get(v, "directories"@) is None,
    }
    &&& match u.destination {
        Some(d) => crate::message_parser::get_str(v, "destination"@) == Some(d.spec_str()),
        None => crate::json::spec_get(v, "destination"@) is None,
    }
}

fn parse_kind(s: &str) -> (r: Option<PermissionUpdateKind>)
    ensures
        r matches Some(k) ==> k.spec_str() == s@,
{
    if crate::text::str_eq(s, "addRules") {
        Some(PermissionUpdateKind::AddRules)
    } else if crate::text::str_eq(s, "replaceRules") {
        Some(PermissionUpdateKind::ReplaceRules)
    } else if crate::text::str_eq(s, "removeRules") {
        Some(PermissionUpdateKind::RemoveRules)
    } else if crate::text::str_eq(s, "setMode") {
        Some(PermissionUpdateKind::SetMode)
    } else if crate::text::str_eq(s, "addDirectories") {
        Some(PermissionUpdateKind::AddDirectories)
    } else if crate::text::str_eq(s, "removeDirectories") {
        Some(PermissionUpdateKind::RemoveDirectories)
    } else {
        None
    }
}

fn parse_behavior(s: &str) -> (r: Option<PermissionBehavior>)
    ensures
        r matches Some(b) ==> b.spec_str() == s@,
{
    if crate::text::str_eq(s, "allow") {
        Some(PermissionBehavior::Allow)
    } else if crate::text::str_eq(s, "deny") {
        Some(PermissionBehavior::Deny)
    } else if crate::text::str_eq(s, "ask") {
        Some(PermissionBehavior::Ask)
    } else {
        None
    }
}

fn parse_mode(s: &str) -> (r: Option<PermissionMode>)
    ensures
        r matches Some(m) ==> m.spec_str() == s@,
{
    if crate::text::str_eq(s, "default") {
        Some(PermissionMode::Default)
    } else if crate::text::str_eq(s, "acceptEdits") {
        Some(PermissionMode::AcceptEdits)
    } else if crate::text::str_eq(s, "plan") {
        Some(PermissionMode::Plan)
    } else if crate::text::str_eq(s, "bypassPermissions") {
        Some(PermissionMode::BypassPermissions)
    } else {
        None
    }
}

fn parse_destination(s: &str) -> (r: Option<PermissionUpdateDestination>)
    ensures
        r matches Some(d) ==> d.spec_str() == s@,
{
    if crate::text::str_eq(s, "userSettings") {
        Some(PermissionUpdateDestination::UserSettings)
    } else if crate::text::str_eq(s, "projectSettings") {
        Some(PermissionUpdateDestination::ProjectSettings)
    } else if crate::text::str_eq(s, "localSettings") {
        Some(PermissionUpdateDestination::LocalSettings)
    } else if crate::text::str_eq(s, "session") {
        Some(PermissionUpdateDestination::Session)
    } else {
        None
    }
}

/// Decodes one permission update suggestion; a decoded update always
/// relates to its wire object by [`update_of`].
pub fn permission_update_from_json(v: &JsonValue) -> (r: Option<PermissionUpdate>)
    ensures
        r matches Some(u) ==> update_of(v@, u),
{
    let kind = match v.get("type") {
        Some(x) => match x.as_str() {
            Some(s) => match parse_kind(s.as_str()) {
                Some(k) => k,
                None => {
                    return None;
                },
            },
            None => {
                return None;
            },
        },
        None => {
            return None;
        },
    };
    let rules: Option<Vec<PermissionRuleValue>> = match v.get("rules") {
        Some(rv) => match rv.as_array() {
            Some(items) => {
                let mut out: Vec<PermissionRuleValue> = Vec::new();
                let mut i: usize = 0;
                proof {
                    crate::json::lemma_arr_view(items@);
                }
                while i < items.len()
                    invariant
                        i <= items@.len(),
                        out@.len() == i,
                        crate::json::arr_view(items@).len() == items@.len(),
                        forall|q: int|
                            0 <= q < items@.len() ==> crate::json::arr_view(items@)[q] == (
                            #[trigger] items@[q])@,
                        forall|q: int|
                            0 <= q < i ==> rule_of(
                                crate::json::arr_view(items@)[q],
                                #[trigger] out@[q],
                            ),
                    decreases items@.len() - i,
                {
                    let item = &items[i];
                    let tool_name = match item.get("toolName") {
                        Some(x) => match x.as_str() {
                            Some(s) => s.clone(),
                            None => {
                                return None;
                            },
                        },
                        None => {
                            return None;
                        },
                    };
                    let rule_content = match item.get("ruleContent") {
                        Some(x) => match x.as_str() {
                            Some(s) => Some(s.clone()),
                            None => {
                                return None;
                            },
                        },
                        None => None,
                    };
                    out.push(PermissionRuleValue { tool_name, rule_content });
                    i = i + 1;
                }
                Some(out)
            },
            None => {
                return None;
            },
        },
        None => None,
    };
    let behavior = match v.get("behavior") {
        Some(x) => match x.as_str() {
            Some(s) => match parse_behavior(s.as_str()) {
                Some(b) => Some(b),
                None => {
                    return None;
                },
            },
            None => {
                return None;
            },
        },
        None => None,
    };
    let mode = match v.get("mode") {
        Some(x) => match x.as_str() {
            Some(s) => match parse_mode(s.as_str()) {
                Some(m) => Some(m),
                None => {
                    return None;
                },
            },
            None => {
                return None;
            },
        },
        None => None,
    };
    let directories: Option<Vec<String>> = match v.get("directories") {
        Some(dv) => match dv.as_array() {
            Some(items) => {
                let mut out: Vec<String> = Vec::new();
                let mut i: usize = 0;
                proof {
                    crate::json::lemma_arr_view(items@);
                }
                while i < items.len()
                    invariant
                        i <= items@.len(),
                        out@.len() == i,
                        crate::json::arr_view(items@).len() == items@.len(),
                        forall|q: int|
                            0 <= q < items@.len() ==> crate::json::arr_view(items@)[q] == (
                            #[trigger] items@[q])@,
                        forall|q: int|
                            0 <= q < i ==> crate::json::arr_view(items@)[q] == JsonV::Str(
                                (#[trigger] out@[q])@,
                            ),
                    decreases items@.len() - i,
                {
                    match items[i].as_str() {
                        Some(s) => {
                            out.push(s.clone());
                        },
                        None => {
                            return None;
                        },
                    }
                    i = i + 1;
                }
                Some(out)
            },
            None => {
                return None;
            },
        },
        None => None,
    };
    let destination = match v.get("destination") {
        Some(x) => match x.as_str() {
            Some(s) => match parse_destination(s.as_str()) {
                Some(d) => Some(d),
                None => {
                    return None;
                },
            },
            None => {
                return None;
            },
        },
        None => None,
    };
    Some(PermissionUpdate { kind, rules, behavior, mode, directories, destination })
}

/// Decodes the contextual suggestion list of a permission request. Entries
/// that do not decode are dropped; every kept entry comes from
/// [`permission_update_from_json`] on one of the wire entries, in order,
/// and so relates to it by [`update_of`].
pub fn parse_permission_suggestions(entries: &Vec<JsonValue>) -> (r: Vec<PermissionUpdate>)
    ensures
        r@.len() <= entries@.len(),
{
    let mut out: Vec<PermissionUpdate> = Vec::new();
    let mut i: usize = 0;
    while i < entries.len()
        invariant
            i <= entries@.len(),
            out@.len() <= i,
        decreases entries@.len() - i,
    {
        match permission_update_from_json(&entries[i]) {
            Some(u) => {
                out.push(u);
            },
            None => {},
        }
        i = i + 1;
    }
    out
}

/// The wire object answering a permission check: the behaviour, the input
/// the tool shall run with, and any granted permission updates.
pub open spec fn spec_permission_response(result: PermissionResult, original: JsonV) -> JsonV {
    match result {
        PermissionResult::Allow(a) => {
            let input = match a.updated_input {
                Some(u) => u@,
                None => original,
            };
            let fields = seq![
                ("behavior"@, JsonV::Str("allow"@)),
                ("updatedInput"@, input),
            ];
            match a.updated_permissions {
                Some(ups) => JsonV::Obj(
                    fields.push(
                        (
                            "updatedPermissions"@,
                            JsonV::Arr(
                                ups@.map_values(|u: PermissionUpdate| spec_update_payload(u)),
                            ),
                        ),
                    ),
                ),
                None => JsonV::Obj(fields),
            }
        },
        PermissionResult::Deny(d) => {
            let fields = seq![("behavior"@, JsonV::Str("deny"@))];
            let fields = if d.message@.len() > 0 {
                fields.push(("message"@, JsonV::Str(d.message@)))
            } else {
                fields
            };
            if d.interrupt {
                JsonV::Obj(fields.push(("interrupt"@, JsonV::Bool(true))))
            } else {
                JsonV::Obj(fields)
            }
        },
    }
}

/// Renders a permission result as its control-response payload.
pub fn permission_response_payload(result: &PermissionResult, original_input: &JsonValue) -> (r:
    JsonValue)
    ensures
        r@ == spec_permission_response(*result, original_input@),
{
    match result {
        PermissionResult::Allow(a) => {
            let mut fields: Vec<(String, JsonValue)> = Vec::new();
            fields.push(
                (String::from_str("behavior"), JsonValue::Str(String::from_str("allow"))),
            );
            match &a.updated_input {
                Some(u) => {
                    fields.push((String::from_str("updatedInput"), u.deep_clone()));
                },
                None => {
                    fields.push(
                        (String::from_str("updatedInput"), original_input.deep_clone()),
                    );
                },
            }
            if let Some(ups) = &a.updated_permissions {
                let items = serialize_permission_updates(ups);
                proof {
                    crate::json::lemma_arr_view(items@);
                    assert forall|z: int| 0 <= z < items@.len() implies crate::json::arr_view(
                        items@,
                    )[z] == ups@.map_values(|u: PermissionUpdate| spec_update_payload(u))[z] by {
                        assert(crate::json::arr_view(items@)[z] == (#[trigger] items@[z])@);
                        assert(ups@.map_values(|u: PermissionUpdate| spec_update_payload(u))[z]
                            == spec_update_payload(ups@[z]));
                    }
                    assert(crate::json::arr_view(items@) =~~= ups@.map_values(
                        |u: PermissionUpdate| spec_update_payload(u),
                    ));
                }
                fields.push((String::from_str("updatedPermissions"), JsonValue::Arr(items)));
            }
            let ghost fv = fields@;
            let out = JsonValue::Obj(fields);
            proof {
                crate::json::lemma_obj_fields_view(fv);
                assert forall|z: int| 0 <= z < fv.len() implies #[trigger] obj_fields_view(
                    fv,
                )[z] == (fv[z].0@, fv[z].1@) by {
                    assert(obj_fields_view(fv)[z] == ((#[trigger] fv[z]).0@, fv[z].1@));
                }
                assert(obj_fields_view(fv) =~~= spec_permission_response(
                    *result,
                    original_input@,
                )->Obj_0);
            }
            out
        },
        PermissionResult::Deny(d) => {
            let mut fields: Vec<(String, JsonValue)> = Vec::new();
            fields.push(
                (String::from_str("behavior"), JsonValue::Str(String::from_str("deny"))),
            );
            if !d.message.as_str().is_empty() {
                fields.push((String::from_str("message"), JsonValue::Str(d.message.clone())));
            }
            if d.interrupt {
                fields.push((String::from_str("interrupt"), JsonValue::Bool(true)));
            }
            let ghost fv = fields@;
            let out = JsonValue::Obj(fields);
            proof {
                crate::json::lemma_obj_fields_view(fv);
                assert forall|z: int| 0 <= z < fv.len() implies #[trigger] obj_fields_view(
                    fv,
                )[z] == (fv[z].0@, fv[z].1@) by {
                    assert(obj_fields_view(fv)[z] == ((#[trigger] fv[z]).0@, fv[z].1@));
                }
                assert(obj_fields_view(fv) =~~= spec_permission_response(
                    *result,
                    original_input@,
                )->Obj_0);
            }
            out
        },
    }
}

} // verus!
