//! The control-protocol orchestrator: request-id generation, correlation of
//! control responses to pending requests, frame classification, dispatch of
//! control requests, and the ordered content-message queue.
//!
//! The byte I/O, the timers and the concurrent task spawning live with the
//! embedding program, which drives this state machine: it feeds every frame
//! read from the transport to [`Query::on_frame`], performs the returned
//! action, and hands results back.

use vstd::prelude::*;

use crate::error::SdkError;
use crate::json::{obj_fields_view, spec_get, JsonV, JsonValue};
use crate::message::Message;
use crate::message_parser::{get_str, message_of, message_parses, parse_err_ok, parse_message};
use crate::json::digits_val;
use crate::text::{dec_digits, str_eq};
use vstd::string::StringExecFns;

verus! {

/// The id minted for the `n`-th control request of a session, disambiguated
/// by a per-process suffix.
pub open spec fn spec_request_id(n: int, suffix: Seq<char>) -> Seq<char> {
    "req_"@ + dec_digits(n) + "_"@ + suffix
}

/// The opaque id minted for the `n`-th registered hook callback.
pub open spec fn spec_hook_id(n: int) -> Seq<char> {
    "hook_"@ + dec_digits(n)
}

proof fn lemma_dec_digits_val(n: int)
    requires
        n >= 0,
    ensures
        digits_val(dec_digits(n)) == n,
        dec_digits(n).len() >= 1,
    decreases n,
{
    if n < 10 {
        assert(dec_digits(n) =~= seq![crate::text::digit_char(n)]);
        assert(dec_digits(n).drop_last() =~= Seq::<char>::empty());
        assert(digits_val(Seq::<char>::empty()) == 0);
        assert(digits_val(dec_digits(n)) == crate::json::digit_char_val(
            crate::text::digit_char(n),
        ));
        assert(crate::json::digit_char_val(crate::text::digit_char(n)) == n);
    } else {
        lemma_dec_digits_val(n / 10);
        assert(dec_digits(n) =~= dec_digits(n / 10).push(crate::text::digit_char(n % 10)));
        assert(dec_digits(n).drop_last() =~= dec_digits(n / 10));
        assert(dec_digits(n).last() == crate::text::digit_char(n % 10));
        assert(crate::json::digit_char_val(crate::text::digit_char(n % 10)) == n % 10);
    }
}

/// Distinct counters give distinct request ids under one suffix.
pub proof fn lemma_request_id_injective(n1: int, n2: int, suffix: Seq<char>)
    requires
        n1 >= 0,
        n2 >= 0,
        n1 != n2,
    ensures
        spec_request_id(n1, suffix) != spec_request_id(n2, suffix),
{
    reveal_strlit("req_");
    reveal_strlit("_");
    lemma_dec_digits_val(n1);
    lemma_dec_digits_val(n2);
    let d1 = dec_digits(n1);
    let d2 = dec_digits(n2);
    if spec_request_id(n1, suffix) == spec_request_id(n2, suffix) {
        assert("req_"@.len() == 4);
        assert("_"@.len() == 1);
        assert(spec_request_id(n1, suffix).len() == 4 + d1.len() + 1 + suffix.len());
        assert(spec_request_id(n2, suffix).len() == 4 + d2.len() + 1 + suffix.len());
        assert(d1.len() == d2.len());
        assert(d1 =~= d2) by {
            assert forall|i: int| 0 <= i < d1.len() implies d1[i] == d2[i] by {
                assert(spec_request_id(n1, suffix)[4 + i] == d1[i]);
                assert(spec_request_id(n2, suffix)[4 + i] == d2[i]);
            }
        }
        assert(digits_val(d1) == digits_val(d2));
        assert(false);
    }
}

/// Distinct counters give distinct hook callback ids.
pub proof fn lemma_hook_id_injective(n1: int, n2: int)
    requires
        n1 >= 0,
        n2 >= 0,
        n1 != n2,
    ensures
        spec_hook_id(n1) != spec_hook_id(n2),
{
    reveal_strlit("hook_");
    lemma_dec_digits_val(n1);
    lemma_dec_digits_val(n2);
    let d1 = dec_digits(n1);
    let d2 = dec_digits(n2);
    if spec_hook_id(n1) == spec_hook_id(n2) {
        assert("hook_"@.len() == 5);
        assert(spec_hook_id(n1).len() == 5 + d1.len());
        assert(spec_hook_id(n2).len() == 5 + d2.len());
        assert(d1 =~= d2) by {
            assert forall|i: int| 0 <= i < d1.len() implies d1[i] == d2[i] by {
                assert(spec_hook_id(n1)[5 + i] == d1[i]);
                assert(spec_hook_id(n2)[5 + i] == d2[i]);
            }
        }
        assert(false);
    }
}

/// The views of a list of id strings.
pub open spec fn ids_of(v: Seq<String>) -> Seq<Seq<char>> {
    v.map_values(|s: String| s@)
}

pub open spec fn contains_id(ids: Seq<Seq<char>>, id: Seq<char>) -> bool {
    exists|i: int| 0 <= i < ids.len() && ids[i] == id
}

pub open spec fn distinct_ids(ids: Seq<Seq<char>>) -> bool {
    forall|i: int, j: int| 0 <= i < j < ids.len() ==> ids[i] != ids[j]
}

/// Whether one registration of `id` was removed and nothing else changed:
/// every other id keeps its multiplicity, and `id` is gone.
pub open spec fn removed_exactly(before: Seq<Seq<char>>, after: Seq<Seq<char>>, id: Seq<char>)
    -> bool {
    &&& !contains_id(after, id)
    &&& forall|other: Seq<char>|
        other != id ==> (#[trigger] contains_id(after, other)) == contains_id(before, other)
}

/// One independence law of the pending table: removing one id never
/// unregisters another.
pub proof fn lemma_pending_independent(
    before: Seq<Seq<char>>,
    after: Seq<Seq<char>>,
    resolved: Seq<char>,
    other: Seq<char>,
)
    requires
        removed_exactly(before, after, resolved),
        contains_id(before, other),
        other != resolved,
    ensures
        contains_id(after, other),
{
}

/// Classification of an incoming frame by its discriminant field.
#[derive(Debug, PartialEq, Eq)]
pub enum FrameClass {
    ControlResponse,
    ControlRequest,
    ControlCancel,
    Content,
}

/// Which class a frame falls in: control frames by their `type` field,
/// everything else is content.
pub open spec fn spec_classify(v: JsonV) -> FrameClass {
    match get_str(v, "type"@) {
        Some(t) => if t == "control_response"@ {
            FrameClass::ControlResponse
        } else if t == "control_request"@ {
            FrameClass::ControlRequest
        } else if t == "control_cancel_request"@ {
            FrameClass::ControlCancel
        } else {
            FrameClass::Content
        },
        None => FrameClass::Content,
    }
}

/// Classifies one frame.
pub fn classify_frame(frame: &JsonValue) -> (r: FrameClass)
    ensures
        r == spec_classify(frame@),
{
    match frame.get("type") {
        Some(t) => match t.as_str() {
            Some(s) => {
                if str_eq(s.as_str(), "control_response") {
                    FrameClass::ControlResponse
                } else if str_eq(s.as_str(), "control_request") {
                    FrameClass::ControlRequest
                } else if str_eq(s.as_str(), "control_cancel_request") {
                    FrameClass::ControlCancel
                } else {
                    FrameClass::Content
                }
            },
            None => FrameClass::Content,
        },
        None => FrameClass::Content,
    }
}

/// The envelope of an outbound control request.
pub open spec fn spec_control_envelope(id: Seq<char>, request: JsonV) -> JsonV {
    JsonV::Obj(
        seq![
            ("type"@, JsonV::Str("control_request"@)),
            ("request_id"@, JsonV::Str(id)),
            ("request"@, request),
        ],
    )
}

/// The envelope of an outbound success response to a control request.
pub open spec fn spec_success_response(id: Seq<char>, payload: JsonV) -> JsonV {
    JsonV::Obj(
        seq![
            ("type"@, JsonV::Str("control_response"@)),
            (
                "response"@,
                JsonV::Obj(
                    seq![
                        ("subtype"@, JsonV::Str("success"@)),
                        ("request_id"@, JsonV::Str(id)),
                        ("response"@, payload),
                    ],
                ),
            ),
        ],
    )
}

/// The envelope of an outbound error response to a control request.
pub open spec fn spec_error_response(id: Seq<char>, message: Seq<char>) -> JsonV {
    JsonV::Obj(
        seq![
            ("type"@, JsonV::Str("control_response"@)),
            (
                "response"@,
                JsonV::Obj(
                    seq![
                        ("subtype"@, JsonV::Str("error"@)),
                        ("request_id"@, JsonV::Str(id)),
                        ("error"@, JsonV::Str(message)),
                    ],
                ),
            ),
        ],
    )
}

/// A request payload with only a subtype, e.g. `interrupt`.
pub open spec fn spec_subtype_request(subtype: Seq<char>) -> JsonV {
    JsonV::Obj(seq![("subtype"@, JsonV::Str(subtype))])
}

/// The `set_permission_mode` request payload.
pub open spec fn spec_set_mode_request(mode: Seq<char>) -> JsonV {
    JsonV::Obj(
        seq![("subtype"@, JsonV::Str("set_permission_mode"@)), ("mode"@, JsonV::Str(mode))],
    )
}

/// The `set_model` request payload; a missing model is sent as null.
pub open spec fn spec_set_model_request(model: Option<Seq<char>>) -> JsonV {
    JsonV::Obj(
        seq![
            ("subtype"@, JsonV::Str("set_model"@)),
            (
                "model"@,
                match model {
                    Some(m) => JsonV::Str(m),
                    None => JsonV::Null,
                },
            ),
        ],
    )
}

/// The `initialize` request payload; absent hooks are sent as null.
pub open spec fn spec_initialize_request(hooks: Option<JsonV>) -> JsonV {
    JsonV::Obj(
        seq![
            ("subtype"@, JsonV::Str("initialize"@)),
            (
                "hooks"@,
                match hooks {
                    Some(h) => h,
                    None => JsonV::Null,
                },
            ),
        ],
    )
}

/// Proof helper: the standard pointwise reading of a built field list.
proof fn lemma_fields_pointwise(fv: Seq<(String, JsonValue)>)
    ensures
        obj_fields_view(fv).len() == fv.len(),
        forall|z: int|
            0 <= z < fv.len() ==> #[trigger] obj_fields_view(fv)[z] == (fv[z].0@, fv[z].1@),
{
    crate::json::lemma_obj_fields_view(fv);
    assert forall|z: int| 0 <= z < fv.len() implies obj_fields_view(fv)[z] == (
        (#[trigger] fv[z]).0@,
        fv[z].1@,
    ) by {
        assert(obj_fields_view(fv)[z] == ((#[trigger] fv[z]).0@, fv[z].1@));
    }
}

/// Builds the outbound control-request envelope.
pub fn build_control_envelope(request_id: &str, request: JsonValue) -> (r: JsonValue)
    ensures
        r@ == spec_control_envelope(request_id@, request@),
{
    let ghost reqv = request@;
    let mut fields: Vec<(String, JsonValue)> = Vec::new();
    fields.push(
        (String::from_str("type"), JsonValue::Str(String::from_str("control_request"))),
    );
    fields.push((String::from_str("request_id"), JsonValue::text(request_id)));
    fields.push((String::from_str("request"), request));
    let ghost fv = fields@;
    let out = JsonValue::Obj(fields);
    proof {
        lemma_fields_pointwise(fv);
        assert(obj_fields_view(fv) =~~= spec_control_envelope(request_id@, reqv)->Obj_0);
    }
    out
}

/// Builds a success control response for one request id.
pub fn build_success_response(request_id: &str, payload: JsonValue) -> (r: JsonValue)
    ensures
        r@ == spec_success_response(request_id@, payload@),
{
    let ghost pv = payload@;
    let mut inner: Vec<(String, JsonValue)> = Vec::new();
    inner.push((String::from_str("subtype"), JsonValue::Str(String::from_str("success"))));
    inner.push((String::from_str("request_id"), JsonValue::text(request_id)));
    inner.push((String::from_str("response"), payload));
    let ghost iv = inner@;
    let inner_obj = JsonValue::Obj(inner);
    let mut fields: Vec<(String, JsonValue)> = Vec::new();
    fields.push(
        (String::from_str("type"), JsonValue::Str(String::from_str("control_response"))),
    );
    fields.push((String::from_str("response"), inner_obj));
    let ghost fv = fields@;
    let out = JsonValue::Obj(fields);
    proof {
        lemma_fields_pointwise(iv);
        lemma_fields_pointwise(fv);
        assert(obj_fields_view(iv) =~~= seq![
            ("subtype"@, JsonV::Str("success"@)),
            ("request_id"@, JsonV::Str(request_id@)),
            ("response"@, pv),
        ]);
        assert(obj_fields_view(fv) =~~= spec_success_response(request_id@, pv)->Obj_0);
    }
    out
}

/// Builds an error control response for one request id.
pub fn build_error_response(request_id: &str, message: String) -> (r: JsonValue)
    ensures
        r@ == spec_error_response(request_id@, message@),
{
    let ghost mv = message@;
    let mut inner: Vec<(String, JsonValue)> = Vec::new();
    inner.push((String::from_str("subtype"), JsonValue::Str(String::from_str("error"))));
    inner.push((String::from_str("request_id"), JsonValue::text(request_id)));
    inner.push((String::from_str("error"), JsonValue::Str(message)));
    let ghost iv = inner@;
    let inner_obj = JsonValue::Obj(inner);
    let mut fields: Vec<(String, JsonValue)> = Vec::new();
    fields.push(
        (String::from_str("type"), JsonValue::Str(String::from_str("control_response"))),
    );
    fields.push((String::from_str("response"), inner_obj));
    let ghost fv = fields@;
    let out = JsonValue::Obj(fields);
    proof {
        lemma_fields_pointwise(iv);
        lemma_fields_pointwise(fv);
        assert(obj_fields_view(iv) =~~= seq![
            ("subtype"@, JsonV::Str("error"@)),
            ("request_id"@, JsonV::Str(request_id@)),
            ("error"@, JsonV::Str(mv)),
        ]);
        assert(obj_fields_view(fv) =~~= spec_error_response(request_id@, mv)->Obj_0);
    }
    out
}

/// Builds a subtype-only control request payload.
pub fn build_subtype_request(subtype: &str) -> (r: JsonValue)
    ensures
        r@ == spec_subtype_request(subtype@),
{
    let mut fields: Vec<(String, JsonValue)> = Vec::new();
    fields.push((String::from_str("subtype"), JsonValue::text(subtype)));
    let ghost fv = fields@;
    let out = JsonValue::Obj(fields);
    proof {
        lemma_fields_pointwise(fv);
        assert(obj_fields_view(fv) =~~= spec_subtype_request(subtype@)->Obj_0);
    }
    out
}

/// Builds the `set_permission_mode` request payload.
pub fn build_set_mode_request(mode: crate::permission::PermissionMode) -> (r: JsonValue)
    ensures
        r@ == spec_set_mode_request(mode.spec_str()),
{
    let mut fields: Vec<(String, JsonValue)> = Vec::new();
    fields.push(
        (String::from_str("subtype"), JsonValue::Str(String::from_str("set_permission_mode"))),
    );
    fields.push((String::from_str("mode"), JsonValue::text(mode.as_str())));
    let ghost fv = fields@;
    let out = JsonValue::Obj(fields);
    proof {
        lemma_fields_pointwise(fv);
        assert(obj_fields_view(fv) =~~= spec_set_mode_request(mode.spec_str())->Obj_0);
    }
    out
}

/// Builds the `set_model` request payload.
pub fn build_set_model_request(model: Option<String>) -> (r: JsonValue)
    ensures
        r@ == spec_set_model_request(
            match model {
                Some(m) => Some(m@),
                None => None::<Seq<char>>,
            },
        ),
{
    let ghost mv = match model {
        Some(ref m) => Some(m@),
        None => None::<Seq<char>>,
    };
    let mut fields: Vec<(String, JsonValue)> = Vec::new();
    fields.push((String::from_str("subtype"), JsonValue::Str(String::from_str("set_model"))));
    match model {
        Some(m) => {
            fields.push((String::from_str("model"), JsonValue::Str(m)));
        },
        None => {
            fields.push((String::from_str("model"), JsonValue::Null));
        },
    }
    let ghost fv = fields@;
    let out = JsonValue::Obj(fields);
    proof {
        lemma_fields_pointwise(fv);
        assert(obj_fields_view(fv) =~~= spec_set_model_request(mv)->Obj_0);
    }
    out
}

/// Builds the `initialize` request payload.
pub fn build_initialize_request(hooks: Option<JsonValue>) -> (r: JsonValue)
    ensures
        r@ == spec_initialize_request(
            match hooks {
                Some(h) => Some(h@),
                None => None::<JsonV>,
            },
        ),
{
    let ghost hv = match hooks {
        Some(ref h) => Some(h@),
        None => None::<JsonV>,
    };
    let mut fields: Vec<(String, JsonValue)> = Vec::new();
    fields.push((String::from_str("subtype"), JsonValue::Str(String::from_str("initialize"))));
    match hooks {
        Some(h) => {
            fields.push((String::from_str("hooks"), h));
        },
        None => {
            fields.push((String::from_str("hooks"), JsonValue::Null));
        },
    }
    let ghost fv = fields@;
    let out = JsonValue::Obj(fields);
    proof {
        lemma_fields_pointwise(fv);
        assert(obj_fields_view(fv) =~~= spec_initialize_request(hv)->Obj_0);
    }
    out
}

/// Control request timeout bound, in seconds.
pub const CONTROL_REQUEST_TIMEOUT_SECS: u64 = 60;

/// Capacity of the content-message channel between the read loop and the
/// consumer.
pub const MESSAGE_CHANNEL_CAPACITY: usize = 100;

/// One in-process tool server: its identity and its tool metadata. The
/// callable handlers stay with the embedding program, keyed by server and
/// tool name.
#[derive(Debug)]
pub struct McpServerInfo {
    pub name: String,
    pub version: String,
    pub tools: Vec<crate::mcp::McpToolInfo>,
}

/// One entry of the content delivery queue.
#[derive(Debug)]
pub enum QueueEntry {
    Msg(Message),
    Fatal(SdkError),
}

/// The messages held in a queue, in order, ignoring a terminal error entry.
pub open spec fn queue_msgs(q: Seq<QueueEntry>) -> Seq<Message>
    decreases q.len(),
{
    if q.len() == 0 {
        Seq::empty()
    } else {
        match q.first() {
            QueueEntry::Msg(m) => seq![m] + queue_msgs(q.drop_first()),
            QueueEntry::Fatal(_) => queue_msgs(q.drop_first()),
        }
    }
}

proof fn lemma_queue_msgs_push_msg(q: Seq<QueueEntry>, m: Message)
    ensures
        queue_msgs(q.push(QueueEntry::Msg(m))) =~= queue_msgs(q) + seq![m],
    decreases q.len(),
{
    let p = q.push(QueueEntry::Msg(m));
    if q.len() == 0 {
        assert(p.drop_first() =~= Seq::<QueueEntry>::empty());
        assert(queue_msgs(Seq::<QueueEntry>::empty()) =~= Seq::<Message>::empty());
        assert(p.first() == QueueEntry::Msg(m));
        assert(queue_msgs(q) =~= Seq::<Message>::empty());
    } else {
        assert(p.first() == q.first());
        assert(p.drop_first() =~= q.drop_first().push(QueueEntry::Msg(m)));
        lemma_queue_msgs_push_msg(q.drop_first(), m);
    }
}

proof fn lemma_queue_msgs_push_fatal(q: Seq<QueueEntry>, e: SdkError)
    ensures
        queue_msgs(q.push(QueueEntry::Fatal(e))) =~= queue_msgs(q),
    decreases q.len(),
{
    let p = q.push(QueueEntry::Fatal(e));
    if q.len() == 0 {
        assert(p.drop_first() =~= Seq::<QueueEntry>::empty());
        assert(queue_msgs(Seq::<QueueEntry>::empty()) =~= Seq::<Message>::empty());
        assert(p.first() == QueueEntry::Fatal(e));
        assert(queue_msgs(q) =~= Seq::<Message>::empty());
    } else {
        assert(p.first() == q.first());
        assert(p.drop_first() =~= q.drop_first().push(QueueEntry::Fatal(e)));
        lemma_queue_msgs_push_fatal(q.drop_first(), e);
    }
}

/// The content-ordering relation: the messages already handed out, followed
/// by those still queued, correspond one-to-one and in order to the content
/// frames accepted from the child.
pub open spec fn ordered_delivery(
    history: Seq<JsonV>,
    delivered: Seq<Message>,
    queued: Seq<Message>,
) -> bool {
    &&& delivered.len() + queued.len() == history.len()
    &&& forall|i: int|
        0 <= i < delivered.len() ==> message_of(#[trigger] history[i], delivered[i])
    &&& forall|i: int|
        delivered.len() <= i < history.len() ==> message_of(
            #[trigger] history[i],
            queued[i - delivered.len()],
        )
}

/// Well-formedness of a control response frame: its correlation fields.
pub open spec fn spec_control_response(v: JsonV) -> Option<(Seq<char>, Seq<char>)> {
    match spec_get(v, "response"@) {
        Some(r) => if r is Obj {
            match (get_str(r, "request_id"@), get_str(r, "subtype"@)) {
                (Some(id), Some(st)) => Some((id, st)),
                _ => None,
            }
        } else {
            None
        },
        None => None,
    }
}

/// The success payload of a control response: its nested `response` field,
/// or null when absent.
pub open spec fn spec_response_payload(v: JsonV) -> JsonV {
    match spec_get(v, "response"@) {
        Some(r) => match spec_get(r, "response"@) {
            Some(p) => p,
            None => JsonV::Null,
        },
        None => JsonV::Null,
    }
}

/// The error text of an error control response.
pub open spec fn spec_response_error(v: JsonV) -> Seq<char> {
    match spec_get(v, "response"@) {
        Some(r) => match get_str(r, "error"@) {
            Some(m) => m,
            None => "Unknown error"@,
        },
        None => "Unknown error"@,
    }
}

/// Outcome of resolving one pending request.
#[derive(Debug)]
pub enum ControlOutcome {
    /// The response carries this payload for the resolved request.
    Success(JsonValue),
    /// The server reported this error for the resolved request.
    Failure(String),
}

/// What one incoming frame led to.
#[derive(Debug)]
pub enum FrameOutcome {
    /// Nothing to do: a cancel notice, an unmatched response, a request
    /// without an id, or a frame arriving after the session ended.
    Ignored,
    /// A content message was queued for the consumer.
    ContentQueued,
    /// A session-fatal error was queued; no further frames are accepted.
    SessionFailed,
    /// The pending request with this id resolved.
    Resolved(String, ControlOutcome),
    /// A control request to service concurrently: its id and its `request`
    /// payload, when one was attached.
    Dispatch(String, Option<JsonValue>),
}

/// The control-protocol orchestrator state.
pub struct Query {
    pub is_streaming_mode: bool,
    pub closed: bool,
    pub started: bool,
    pub request_counter: u64,
    /// Per-session disambiguator appended to request ids.
    pub suffix: String,
    /// Outstanding control request ids.
    pub pending: Vec<String>,
    /// Every id ever issued, in issue order.
    pub issued: Ghost<Seq<Seq<char>>>,
    /// Hook configuration, consumed once during initialization.
    pub hooks: Option<Vec<(crate::hooks::HookEvent, Vec<crate::hooks::HookMatcher>)>>,
    /// Registered hook callback ids.
    pub hook_callback_ids: Vec<String>,
    pub next_callback_id: u64,
    /// Whether a permission callback is registered with the embedding
    /// program.
    pub can_use_tool: bool,
    /// In-process tool servers, by name.
    pub sdk_servers: Vec<McpServerInfo>,
    pub initialized: bool,
    pub initialization_result: Option<JsonValue>,
    /// Decoded content messages awaiting the consumer.
    pub queue: Vec<QueueEntry>,
    /// A session-fatal error has been queued.
    pub failed: bool,
    /// The transport reported end of stream.
    pub ended: bool,
    /// The terminal error has been handed out.
    pub fatal_delivered: bool,
    /// Content frames accepted so far, in order.
    pub history: Ghost<Seq<JsonV>>,
    /// Messages handed to the consumer, in order.
    pub delivered: Ghost<Seq<Message>>,
}

impl Query {
    /// State invariant: issued ids follow the counter scheme, pending ids
    /// are distinct issued ids, a terminal error can only sit at the end of
    /// the queue, and delivery order mirrors acceptance order.
    pub open spec fn wf(&self) -> bool {
        &&& self.issued@.len() == self.request_counter
        &&& forall|k: int|
            0 <= k < self.issued@.len() ==> #[trigger] self.issued@[k] == spec_request_id(
                k + 1,
                self.suffix@,
            )
        &&& forall|i: int|
            0 <= i < self.pending@.len() ==> contains_id(
                self.issued@,
                #[trigger] self.pending@[i]@,
            )
        &&& distinct_ids(ids_of(self.pending@))
        &&& forall|i: int|
            0 <= i < self.queue@.len() && !((#[trigger] self.queue@[i]) is Msg) ==> (i
                == self.queue@.len() - 1 && self.failed)
        &&& (self.failed && self.fatal_delivered ==> self.queue@.len() == 0)
        &&& (self.fatal_delivered ==> self.failed)
        &&& ordered_delivery(self.history@, self.delivered@, queue_msgs(self.queue@))
    }

    /// Creates an orchestrator around the given configuration. The suffix
    /// disambiguates request ids across process restarts and is chosen by
    /// the embedding program.
    pub fn new(
        is_streaming_mode: bool,
        suffix: String,
        can_use_tool: bool,
        hooks: Option<Vec<(crate::hooks::HookEvent, Vec<crate::hooks::HookMatcher>)>>,
        sdk_servers: Vec<McpServerInfo>,
    ) -> (r: Query)
        ensures
            r.wf(),
            r.is_streaming_mode == is_streaming_mode,
            !r.closed,
            !r.started,
            r.request_counter == 0,
            r.suffix == suffix,
            r.pending@.len() == 0,
            r.can_use_tool == can_use_tool,
            r.hooks == hooks,
            r.hook_callback_ids@.len() == 0,
            r.sdk_servers == sdk_servers,
            !r.initialized,
            r.queue@.len() == 0,
            !r.failed,
            !r.ended,
            r.history@.len() == 0,
            r.delivered@.len() == 0,
    {
        let q = Query {
            is_streaming_mode,
            closed: false,
            started: false,
            request_counter: 0,
            suffix,
            pending: Vec::new(),
            issued: Ghost(Seq::empty()),
            hooks,
            hook_callback_ids: Vec::new(),
            next_callback_id: 0,
            can_use_tool,
            sdk_servers,
            initialized: false,
            initialization_result: None,
            queue: Vec::new(),
            failed: false,
            ended: false,
            fatal_delivered: false,
            history: Ghost(Seq::empty()),
            delivered: Ghost(Seq::empty()),
        };
        proof {
            assert(queue_msgs(q.queue@) =~= Seq::<Message>::empty());
        }
        q
    }

    pub fn is_streaming_mode(&self) -> (r: bool)
        ensures
            r == self.is_streaming_mode,
    {
        self.is_streaming_mode
    }

    pub fn is_closed(&self) -> (r: bool)
        ensures
            r == self.closed,
    {
        self.closed
    }

    /// Marks the background read loop as running; an error once closed.
    pub fn start(&mut self) -> (r: Result<(), SdkError>)
        ensures
            final(self).wf() <== old(self).wf(),
            old(self).closed ==> (r matches Err(e) && e.spec_message() == "query is closed"@
                && *final(self) == *old(self)),
            !old(self).closed ==> r is Ok && *final(self) == (
                Query { started: true, ..*old(self) }
            ),
    {
        if self.closed {
            proof {
                reveal_strlit("query is closed");
            }
            return Err(SdkError::Message(String::from_str("query is closed")));
        }
        self.started = true;
        Ok(())
    }

    /// Mints the next request id and registers it as pending, wrapping the
    /// given request payload in its control envelope. Control requests
    /// require continuous-input mode; a closed orchestrator refuses.
    pub fn prepare_control_request(&mut self, request: JsonValue) -> (r: Result<
        (String, JsonValue),
        SdkError,
    >)
        requires
            old(self).wf(),
        ensures
            final(self).wf(),
            !old(self).is_streaming_mode ==> (r matches Err(e) && e.spec_message()
                == "control requests require streaming mode"@ && *final(self) == *old(self)),
            old(self).is_streaming_mode && old(self).closed ==> (r matches Err(e)
                && e.spec_message() == "query is closed"@ && *final(self) == *old(self)),
            old(self).is_streaming_mode && !old(self).closed && old(self).request_counter
                < 0xffff_ffff_ffff_ffff ==> (r matches Ok((id, env)) && {
                &&& id@ == spec_request_id(old(self).request_counter + 1, old(self).suffix@)
                &&& env@ == spec_control_envelope(id@, request@)
                &&& !contains_id(ids_of(old(self).pending@), id@)
                &&& final(self).pending@ == old(self).pending@.push(id)
                &&& final(self).issued@ == old(self).issued@.push(id@)
                &&& final(self).request_counter == old(self).request_counter + 1
                &&& final(self).queue == old(self).queue
                &&& final(self).history == old(self).history
                &&& final(self).delivered == old(self).delivered
                &&& final(self).failed == old(self).failed
                &&& final(self).closed == old(self).closed
            }),
    {
        if !self.is_streaming_mode {
            proof {
                reveal_strlit("control requests require streaming mode");
            }
            return Err(
                SdkError::Message(String::from_str("control requests require streaming mode")),
            );
        }
        if self.closed {
            proof {
                reveal_strlit("query is closed");
            }
            return Err(SdkError::Message(String::from_str("query is closed")));
        }
        if self.request_counter == 0xffff_ffff_ffff_ffff {
            proof {
                reveal_strlit("request counter exhausted");
            }
            return Err(SdkError::Message(String::from_str("request counter exhausted")));
        }
        self.request_counter = self.request_counter + 1;
        let counter = self.request_counter;
        let mut id = String::from_str("req_");
        let digits = crate::text::u64_to_string(counter);
        id.append(digits.as_str());
        id.append("_");
        id.append(self.suffix.as_str());
        proof {
            reveal_strlit("req_");
            reveal_strlit("_");
            assert(id@ =~= spec_request_id(counter as int, old(self).suffix@));
        }
        let envelope = build_control_envelope(id.as_str(), request);
        proof {
            assert forall|k: int| 0 <= k < old(self).issued@.len() implies spec_request_id(
                counter as int,
                old(self).suffix@,
            ) != old(self).issued@[k] by {
                lemma_request_id_injective(counter as int, k + 1, old(self).suffix@);
            }
            assert(!contains_id(old(self).issued@, id@));
            assert(!contains_id(ids_of(old(self).pending@), id@)) by {
                if contains_id(ids_of(old(self).pending@), id@) {
                    let i = choose|i: int|
                        0 <= i < ids_of(old(self).pending@).len() && ids_of(old(self).pending@)[i]
                            == id@;
                    assert(old(self).pending@[i]@ == id@);
                    assert(contains_id(old(self).issued@, id@));
                }
            }
        }
        let id_copy = id.clone();
        self.pending.push(id);
        proof {
            self.issued@ = self.issued@.push(id_copy@);
            assert forall|i: int| 0 <= i < self.pending@.len() implies contains_id(
                self.issued@,
                #[trigger] self.pending@[i]@,
            ) by {
                if i < old(self).pending@.len() {
                    assert(contains_id(old(self).issued@, old(self).pending@[i]@));
                    let k = choose|k: int|
                        0 <= k < old(self).issued@.len() && old(self).issued@[k] == old(
                            self,
                        ).pending@[i]@;
                    assert(self.issued@[k] == old(self).pending@[i]@);
                } else {
                    assert(self.issued@[self.issued@.len() - 1] == id_copy@);
                }
            }
            assert(distinct_ids(ids_of(self.pending@))) by {
                assert forall|i: int, j: int|
                    0 <= i < j < self.pending@.len() implies ids_of(self.pending@)[i] != ids_of(
                    self.pending@,
                )[j] by {
                    if j < old(self).pending@.len() {
                        assert(ids_of(old(self).pending@)[i] != ids_of(old(self).pending@)[j]);
                    } else {
                        assert(self.pending@[j]@ == id_copy@);
                        if ids_of(self.pending@)[i] == id_copy@ {
                            assert(old(self).pending@[i]@ == id_copy@);
                            assert(contains_id(ids_of(old(self).pending@), id_copy@));
                        }
                    }
                }
            }
        }
        Ok((id_copy, envelope))
    }

    /// Drops the registration of an unanswered request after the configured
    /// bound, yielding the timeout error the caller reports. Exactly the
    /// named registration goes away.
    pub fn on_request_timeout(&mut self, id: &str) -> (r: SdkError)
        requires
            old(self).wf(),
        ensures
            final(self).wf(),
            r is Timeout,
            removed_exactly(ids_of(old(self).pending@), ids_of(final(self).pending@), id@),
            *final(self) == (Query { pending: final(self).pending, ..*old(self) }),
    {
        self.remove_pending(id);
        SdkError::Timeout
    }

    /// Unregisters one pending id, reporting whether it was present; every
    /// other registration is untouched.
    pub fn remove_pending(&mut self, id: &str) -> (found: bool)
        requires
            old(self).wf(),
        ensures
            final(self).wf(),
            found == contains_id(ids_of(old(self).pending@), id@),
            removed_exactly(ids_of(old(self).pending@), ids_of(final(self).pending@), id@),
            *final(self) == (Query { pending: final(self).pending, ..*old(self) }),
            !found ==> *final(self) == *old(self),
    {
        let ghost pre = ids_of(self.pending@);
        let n = self.pending.len();
        let mut i: usize = 0;
        while i < n
            invariant
                old(self).wf(),
                n == self.pending@.len(),
                i <= n,
                *self == (Query { pending: self.pending, ..*old(self) }),
                self.pending == old(self).pending,
                pre == ids_of(self.pending@),
                forall|k: int| 0 <= k < i ==> pre[k] != id@,
            decreases n - i,
        {
            if str_eq(self.pending[i].as_str(), id) {
                proof {
                    assert(pre[i as int] == id@);
                }
                self.pending.remove(i);
                proof {
                    let post = ids_of(self.pending@);
                    assert(self.pending@ =~= old(self).pending@.remove(i as int));
                    assert(post =~= pre.remove(i as int));
                    assert forall|k: int| 0 <= k < post.len() implies #[trigger] post[k] == (
                        if k < i {
                            pre[k]
                        } else {
                            pre[k + 1]
                        }
                    ) by {}
                    assert(!contains_id(post, id@)) by {
                        if contains_id(post, id@) {
                            let k = choose|k: int|
                                0 <= k < post.len() && post[k] == id@;
                            if k < i {
                                assert(pre[k] == id@);
                            } else {
                                assert(pre[k + 1] == id@);
                                assert(distinct_ids(pre));
                                assert(pre[i as int] == id@);
                            }
                        }
                    }
                    assert forall|other: Seq<char>| other != id@ implies (#[trigger] contains_id(
                        post,
                        other,
                    )) == contains_id(pre, other) by {
                        if contains_id(post, other) {
                            let k = choose|k: int| 0 <= k < post.len() && post[k] == other;
                            if k < i {
                                assert(pre[k] == other);
                            } else {
                                assert(pre[k + 1] == other);
                            }
                        }
                        if contains_id(pre, other) {
                            let k = choose|k: int| 0 <= k < pre.len() && pre[k] == other;
                            if k < i {
                                assert(post[k] == other);
                            } else {
                                assert(k != i);
                                assert(post[k - 1] == other);
                            }
                        }
                    }
                    assert(distinct_ids(post)) by {
                        assert forall|a: int, b: int| 0 <= a < b < post.len() implies post[a]
                            != post[b] by {
                            let pa: int = if a < i { a } else { a + 1 };
                            let pb: int = if b < i { b } else { b + 1 };
                            assert(post[a] == pre[pa] && post[b] == pre[pb]);
                        }
                    }
                    assert forall|z: int| 0 <= z < self.pending@.len() implies contains_id(
                        self.issued@,
                        #[trigger] self.pending@[z]@,
                    ) by {
                        let pz: int = if z < i { z } else { z + 1 };
                        assert(old(self).pending@[pz]@ == self.pending@[z]@);
                        assert(contains_id(old(self).issued@, old(self).pending@[pz]@));
                    }
                }
                return true;
            }
            i = i + 1;
        }
        proof {
            assert(!contains_id(pre, id@)) by {
                if contains_id(pre, id@) {
                    let k = choose|k: int| 0 <= k < pre.len() && pre[k] == id@;
                    assert(pre[k] != id@);
                }
            }
        }
        false
    }
}

/// The error text recorded for a structurally bad control response.
pub open spec fn spec_malformed_response_msg(v: JsonV) -> Seq<char> {
    match spec_get(v, "response"@) {
        Some(r) => if !(r is Obj) {
            "control response missing 'response' field"@
        } else if get_str(r, "request_id"@) is None {
            "control response missing request_id"@
        } else {
            "control response missing subtype"@
        },
        None => "control response missing 'response' field"@,
    }
}

/// What `next_message` yielded.
#[derive(Debug)]
pub enum NextStep {
    /// The next content message, in child-emission order.
    Item(Message),
    /// The terminal error, reported exactly once.
    Failed(SdkError),
    /// The stream is over: nothing queued and nothing more will come.
    Ended,
    /// Nothing queued yet; more frames may still arrive.
    Idle,
}

impl Query {
    /// Routes one frame read from the transport.
    ///
    /// Control responses resolve exactly the pending request sharing their
    /// request id; control requests are handed back for concurrent
    /// dispatch; cancel notices are accepted and ignored; everything else
    /// is decoded and queued in arrival order. After a session-fatal error
    /// or a close, frames are ignored and nothing further is delivered.
    pub fn route_frame(&mut self, frame: &JsonValue) -> (r: FrameOutcome)
        requires
            old(self).wf(),
        ensures
            final(self).wf(),
            old(self).closed || old(self).failed ==> r is Ignored && *final(self) == *old(
                self,
            ),
            !old(self).closed && !old(self).failed ==> match spec_classify(frame@) {
                FrameClass::ControlCancel => r is Ignored && *final(self) == *old(self),
                FrameClass::ControlRequest => *final(self) == *old(self) && (match get_str(
                    frame@,
                    "request_id"@,
                ) {
                    Some(id) => r matches FrameOutcome::Dispatch(rid, req) && rid@ == id && (
                    match spec_get(frame@, "request"@) {
                        Some(p) => req matches Some(pv) && pv@ == p,
                        None => req is None,
                    }),
                    None => r is Ignored,
                }),
                FrameClass::ControlResponse => match spec_control_response(frame@) {
                    Some((id, st)) => {
                        &&& final(self).queue == old(self).queue
                        &&& final(self).history == old(self).history
                        &&& final(self).delivered == old(self).delivered
                        &&& final(self).failed == old(self).failed
                        &&& if contains_id(ids_of(old(self).pending@), id) {
                            &&& r matches FrameOutcome::Resolved(rid, oc) && rid@ == id && (
                            if st == "error"@ {
                                oc matches ControlOutcome::Failure(m) && m@
                                    == spec_response_error(frame@)
                            } else {
                                oc matches ControlOutcome::Success(p) && p@
                                    == spec_response_payload(frame@)
                            })
                            &&& removed_exactly(
                                ids_of(old(self).pending@),
                                ids_of(final(self).pending@),
                                id,
                            )
                        } else {
                            r is Ignored && *final(self) == *old(self)
                        }
                    },
                    None => {
                        &&& r is SessionFailed
                        &&& final(self).failed
                        &&& final(self).queue@.len() == old(self).queue@.len() + 1
                        &&& final(self).queue@.subrange(0, old(self).queue@.len() as int)
                            == old(self).queue@
                        &&& final(self).queue@.last() matches QueueEntry::Fatal(e)
                            && e.spec_message() == spec_malformed_response_msg(frame@)
                        &&& final(self).history == old(self).history
                        &&& final(self).delivered == old(self).delivered
                        &&& final(self).pending == old(self).pending
                    },
                },
                FrameClass::Content => if message_parses(frame@) {
                    &&& r is ContentQueued
                    &&& !final(self).failed
                    &&& final(self).history@ == old(self).history@.push(frame@)
                    &&& final(self).queue@.len() == old(self).queue@.len() + 1
                    &&& final(self).queue@.subrange(0, old(self).queue@.len() as int) == old(
                        self,
                    ).queue@
                    &&& final(self).queue@.last() matches QueueEntry::Msg(m) && message_of(
                        frame@,
                        m,
                    )
                    &&& final(self).delivered == old(self).delivered
                    &&& final(self).pending == old(self).pending
                } else {
                    &&& r is SessionFailed
                    &&& final(self).failed
                    &&& final(self).queue@.len() == old(self).queue@.len() + 1
                    &&& final(self).queue@.subrange(0, old(self).queue@.len() as int) == old(
                        self,
                    ).queue@
                    &&& final(self).queue@.last() matches QueueEntry::Fatal(e) && parse_err_ok(
                        frame@,
                        e,
                    )
                    &&& final(self).history == old(self).history
                    &&& final(self).delivered == old(self).delivered
                    &&& final(self).pending == old(self).pending
                },
            },
    {
        if self.closed || self.failed {
            return FrameOutcome::Ignored;
        }
        let class = classify_frame(frame);
        match class {
            FrameClass::ControlCancel => FrameOutcome::Ignored,
            FrameClass::ControlRequest => {
                let rid = match frame.get("request_id") {
                    Some(v) => match v.as_str() {
                        Some(s) => s.clone(),
                        None => {
                            return FrameOutcome::Ignored;
                        },
                    },
                    None => {
                        return FrameOutcome::Ignored;
                    },
                };
                let req = match frame.get("request") {
                    Some(p) => Some(p.deep_clone()),
                    None => None,
                };
                FrameOutcome::Dispatch(rid, req)
            },
            FrameClass::ControlResponse => {
                let resp = match frame.get("response") {
                    Some(v) => v,
                    None => {
                        return self.fail_session_response(frame);
                    },
                };
                if !resp.is_object() {
                    return self.fail_session_response(frame);
                }
                let rid = match resp.get("request_id") {
                    Some(v) => match v.as_str() {
                        Some(s) => s.clone(),
                        None => {
                            return self.fail_session_response(frame);
                        },
                    },
                    None => {
                        return self.fail_session_response(frame);
                    },
                };
                let subtype = match resp.get("subtype") {
                    Some(v) => match v.as_str() {
                        Some(s) => s.clone(),
                        None => {
                            return self.fail_session_response(frame);
                        },
                    },
                    None => {
                        return self.fail_session_response(frame);
                    },
                };
                let found = self.remove_pending(rid.as_str());
                if !found {
                    return FrameOutcome::Ignored;
                }
                if str_eq(subtype.as_str(), "error") {
                    let msg = match resp.get("error") {
                        Some(v) => match v.as_str() {
                            Some(s) => s.clone(),
                            None => String::from_str("Unknown error"),
                        },
                        None => String::from_str("Unknown error"),
                    };
                    FrameOutcome::Resolved(rid, ControlOutcome::Failure(msg))
                } else {
                    let payload = match resp.get("response") {
                        Some(v) => v.deep_clone(),
                        None => JsonValue::Null,
                    };
                    FrameOutcome::Resolved(rid, ControlOutcome::Success(payload))
                }
            },
            FrameClass::Content => {
                match parse_message(frame) {
                    Ok(m) => {
                        proof {
                            lemma_queue_msgs_push_msg(self.queue@, m);
                        }
                        let ghost framev = frame@;
                        self.queue.push(QueueEntry::Msg(m));
                        proof {
                            self.history@ = self.history@.push(framev);
                            assert(self.queue@.subrange(0, old(self).queue@.len() as int)
                                =~= old(self).queue@);
                            assert forall|i: int|
                                0 <= i < self.queue@.len() && !((#[trigger] self.queue@[i])
                                    is Msg) implies (i == self.queue@.len() - 1
                                && self.failed) by {
                                if i < old(self).queue@.len() {
                                    assert(old(self).queue@[i] == self.queue@[i]);
                                }
                            }
                            assert(ordered_delivery(
                                self.history@,
                                self.delivered@,
                                queue_msgs(self.queue@),
                            )) by {
                                let oldq = queue_msgs(old(self).queue@);
                                let newq = queue_msgs(self.queue@);
                                assert(newq =~= oldq + seq![m]);
                                assert forall|i: int|
                                    self.delivered@.len() <= i < self.history@.len() implies
                                    message_of(
                                    #[trigger] self.history@[i],
                                    newq[i - self.delivered@.len()],
                                ) by {
                                    if i < old(self).history@.len() {
                                        assert(self.history@[i] == old(self).history@[i]);
                                        assert(newq[i - self.delivered@.len()] == oldq[i
                                            - self.delivered@.len()]);
                                    } else {
                                        assert(self.history@[i] == framev);
                                        assert(newq[i - self.delivered@.len()] == m);
                                    }
                                }
                            }
                        }
                        FrameOutcome::ContentQueued
                    },
                    Err(e) => {
                        proof {
                            lemma_queue_msgs_push_fatal(self.queue@, e);
                        }
                        self.queue.push(QueueEntry::Fatal(e));
                        self.failed = true;
                        proof {
                            assert(self.queue@.subrange(0, old(self).queue@.len() as int)
                                =~= old(self).queue@);
                            assert forall|i: int|
                                0 <= i < self.queue@.len() && !((#[trigger] self.queue@[i])
                                    is Msg) implies (i == self.queue@.len() - 1
                                && self.failed) by {
                                if i < old(self).queue@.len() {
                                    assert(old(self).queue@[i] == self.queue@[i]);
                                    assert(!old(self).failed);
                                }
                            }
                            assert(queue_msgs(self.queue@) =~= queue_msgs(old(self).queue@));
                        }
                        FrameOutcome::SessionFailed
                    },
                }
            },
        }
    }

    /// Records a structurally bad control response as the terminal error.
    fn fail_session_response(&mut self, frame: &JsonValue) -> (r: FrameOutcome)
        requires
            old(self).wf(),
            !old(self).closed,
            !old(self).failed,
        ensures
            final(self).wf(),
            r is SessionFailed,
            final(self).failed,
            final(self).queue@.len() == old(self).queue@.len() + 1,
            final(self).queue@.subrange(0, old(self).queue@.len() as int) == old(self).queue@,
            final(self).queue@.last() matches QueueEntry::Fatal(e) && e.spec_message()
                == spec_malformed_response_msg(frame@),
            final(self).history == old(self).history,
            final(self).delivered == old(self).delivered,
            final(self).pending == old(self).pending,
            final(self).closed == old(self).closed,
    {
        let text: &str = match frame.get("response") {
            Some(v) => {
                if !v.is_object() {
                    "control response missing 'response' field"
                } else {
                    match v.get("request_id") {
                        Some(x) => match x.as_str() {
                            Some(_) => "control response missing subtype",
                            None => "control response missing request_id",
                        },
                        None => "control response missing request_id",
                    }
                }
            },
            None => "control response missing 'response' field",
        };
        let e = SdkError::Message(String::from_str(text));
        proof {
            lemma_queue_msgs_push_fatal(self.queue@, e);
        }
        self.queue.push(QueueEntry::Fatal(e));
        self.failed = true;
        proof {
            assert(self.queue@.subrange(0, old(self).queue@.len() as int) =~= old(
                self,
            ).queue@);
            assert forall|i: int|
                0 <= i < self.queue@.len() && !((#[trigger] self.queue@[i]) is Msg) implies (i
                == self.queue@.len() - 1 && self.failed) by {
                if i < old(self).queue@.len() {
                    assert(old(self).queue@[i] == self.queue@[i]);
                    assert(!old(self).failed);
                }
            }
            assert(queue_msgs(self.queue@) =~= queue_msgs(old(self).queue@));
        }
        FrameOutcome::SessionFailed
    }

    /// Marks that the transport reported end of stream.
    pub fn on_transport_end(&mut self)
        requires
            old(self).wf(),
        ensures
            final(self).wf(),
            *final(self) == (Query { ended: true, ..*old(self) }),
    {
        self.ended = true;
    }

    /// Pulls the next item for the consumer: messages in arrival order,
    /// then at most one terminal error, then end of stream.
    pub fn next_message(&mut self) -> (r: NextStep)
        requires
            old(self).wf(),
        ensures
            final(self).wf(),
            old(self).queue@.len() > 0 ==> match old(self).queue@.first() {
                QueueEntry::Msg(m) => {
                    &&& r matches NextStep::Item(m2) && m2 == m
                    &&& final(self).queue@ == old(self).queue@.drop_first()
                    &&& final(self).delivered@ == old(self).delivered@.push(m)
                    &&& final(self).history == old(self).history
                    &&& final(self).pending == old(self).pending
                    &&& final(self).failed == old(self).failed
                },
                QueueEntry::Fatal(e) => {
                    &&& r matches NextStep::Failed(e2) && e2 == e
                    &&& final(self).queue@.len() == 0
                    &&& final(self).fatal_delivered
                    &&& final(self).delivered == old(self).delivered
                    &&& final(self).history == old(self).history
                    &&& final(self).pending == old(self).pending
                },
            },
            old(self).queue@.len() == 0 ==> *final(self) == *old(self) && (if old(self).ended
                || old(self).closed || (old(self).failed && old(self).fatal_delivered) {
                r is Ended
            } else {
                r is Idle
            }),
    {
        if self.queue.len() == 0 {
            if self.ended || self.closed || (self.failed && self.fatal_delivered) {
                return NextStep::Ended;
            }
            return NextStep::Idle;
        }
        let entry = self.queue.remove(0);
        proof {
            assert(self.queue@ =~= old(self).queue@.drop_first());
        }
        match entry {
            QueueEntry::Msg(m) => {
                proof {
                    let oldq = queue_msgs(old(self).queue@);
                    let newq = queue_msgs(self.queue@);
                    assert(old(self).queue@.first() == QueueEntry::Msg(m));
                    assert(oldq =~= seq![m] + newq);
                    self.delivered@ = self.delivered@.push(m);
                    assert forall|i: int|
                        0 <= i < self.queue@.len() && !((#[trigger] self.queue@[i]) is Msg)
                            implies (i == self.queue@.len() - 1 && self.failed) by {
                        assert(self.queue@[i] == old(self).queue@[i + 1]);
                    }
                    assert(ordered_delivery(
                        self.history@,
                        self.delivered@,
                        queue_msgs(self.queue@),
                    )) by {
                        assert forall|i: int|
                            0 <= i < self.delivered@.len() implies message_of(
                            #[trigger] self.history@[i],
                            self.delivered@[i],
                        ) by {
                            if i < old(self).delivered@.len() {
                                assert(self.delivered@[i] == old(self).delivered@[i]);
                            } else {
                                assert(self.delivered@[i] == m);
                                assert(oldq[0] == m);
                                assert(message_of(
                                    self.history@[old(self).delivered@.len() as int],
                                    oldq[0],
                                ));
                            }
                        }
                        assert forall|i: int|
                            self.delivered@.len() <= i < self.history@.len() implies message_of(
                            #[trigger] self.history@[i],
                            newq[i - self.delivered@.len()],
                        ) by {
                            assert(oldq[i - old(self).delivered@.len()] == newq[i
                                - self.delivered@.len()]);
                        }
                    }
                }
                NextStep::Item(m)
            },
            QueueEntry::Fatal(e) => {
                self.fatal_delivered = true;
                proof {
                    assert(old(self).queue@[0] == QueueEntry::Fatal(e));
                    assert(old(self).failed);
                    assert(old(self).queue@.len() == 1);
                    assert(self.queue@.len() == 0);
                    assert(queue_msgs(old(self).queue@) =~= queue_msgs(self.queue@));
                }
                NextStep::Failed(e)
            },
        }
    }

    /// Records a terminal transport error (a decode overflow or a process
    /// failure) for the consumer. Only the first such error is kept: after
    /// the session has failed, further reports change nothing, so the
    /// terminal error is surfaced exactly once.
    pub fn on_transport_error(&mut self, e: SdkError) -> (accepted: bool)
        requires
            old(self).wf(),
        ensures
            final(self).wf(),
            old(self).closed || old(self).failed ==> !accepted && *final(self) == *old(self),
            !old(self).closed && !old(self).failed ==> accepted && {
                &&& final(self).failed
                &&& final(self).queue@.len() == old(self).queue@.len() + 1
                &&& final(self).queue@.subrange(0, old(self).queue@.len() as int) == old(
                    self,
                ).queue@
                &&& final(self).queue@.last() == QueueEntry::Fatal(e)
                &&& final(self).history == old(self).history
                &&& final(self).delivered == old(self).delivered
                &&& final(self).pending == old(self).pending
            },
    {
        if self.closed || self.failed {
            return false;
        }
        proof {
            lemma_queue_msgs_push_fatal(self.queue@, e);
        }
        self.queue.push(QueueEntry::Fatal(e));
        self.failed = true;
        proof {
            assert(self.queue@.subrange(0, old(self).queue@.len() as int) =~= old(
                self,
            ).queue@);
            assert forall|i: int|
                0 <= i < self.queue@.len() && !((#[trigger] self.queue@[i]) is Msg) implies (i
                == self.queue@.len() - 1 && self.failed) by {
                if i < old(self).queue@.len() {
                    assert(old(self).queue@[i] == self.queue@[i]);
                    assert(!old(self).failed);
                }
            }
            assert(queue_msgs(self.queue@) =~= queue_msgs(old(self).queue@));
        }
        true
    }

    /// Stores the initialization response as session metadata.
    pub fn record_initialization(&mut self, response: JsonValue)
        requires
            old(self).wf(),
        ensures
            final(self).wf(),
            *final(self) == (
                Query {
                    initialized: true,
                    initialization_result: Some(response),
                    ..*old(self)
                }
            ),
    {
        self.initialized = true;
        self.initialization_result = Some(response);
    }

    /// The previously recorded initialization payload, if any.
    pub fn initialization_result<'a>(&'a self) -> (r: Option<&'a JsonValue>)
        ensures
            match r {
                Some(v) => self.initialization_result matches Some(w) && w == *v,
                None => self.initialization_result is None,
            },
    {
        match &self.initialization_result {
            Some(v) => Some(v),
            None => None,
        }
    }

    /// Closes the orchestrator: terminal and idempotent. Every pending
    /// request is unregistered and handed back so the embedding program can
    /// fail its waiters with a closed-session error.
    pub fn close(&mut self) -> (r: Vec<String>)
        requires
            old(self).wf(),
        ensures
            final(self).wf(),
            final(self).closed,
            old(self).closed ==> r@.len() == 0 && *final(self) == *old(self),
            !old(self).closed ==> r == old(self).pending && final(self).pending@.len() == 0
                && *final(self) == (
            Query { closed: true, pending: final(self).pending, ..*old(self) }),
    {
        if self.closed {
            return Vec::new();
        }
        self.closed = true;
        let mut out: Vec<String> = Vec::new();
        core::mem::swap(&mut out, &mut self.pending);
        out
    }
}

/// What servicing one control request comes to.
#[derive(Debug)]
#[allow(inconsistent_fields)]
pub enum DispatchStep {
    /// Ask the registered permission arbiter about this tool invocation.
    PermissionCheck {
        tool_name: String,
        input: JsonValue,
        suggestions: Vec<crate::permission::PermissionUpdate>,
    },
    /// Invoke the hook callback registered under this id.
    HookInvoke {
        callback_id: String,
        input: crate::hooks::HookInput,
        tool_use_id: Option<String>,
    },
    /// Answer immediately with this payload (a JSON-RPC shaped reply).
    McpReply(JsonValue),
    /// Invoke the named in-process tool and answer with its result.
    McpToolCall { server: String, tool: String, rpc_id: JsonValue, arguments: JsonValue },
    /// Answer with an error response carrying this message.
    Fail(String),
}

/// The first server with the given name, if any.
pub open spec fn spec_server_lookup(servers: Seq<McpServerInfo>, name: Seq<char>) -> Option<
    int,
>
    decreases servers.len(),
{
    if servers.len() == 0 {
        None
    } else if servers.first().name@ == name {
        Some(0)
    } else {
        match spec_server_lookup(servers.drop_first(), name) {
            Some(i) => Some(i + 1),
            None => None,
        }
    }
}

proof fn lemma_server_lookup_at(servers: Seq<McpServerInfo>, name: Seq<char>, j: int)
    requires
        0 <= j < servers.len(),
        servers[j].name@ == name,
        forall|z: int| 0 <= z < j ==> (#[trigger] servers[z]).name@ != name,
    ensures
        spec_server_lookup(servers, name) == Some(j),
    decreases j,
{
    if j == 0 {
    } else {
        assert(servers.first().name@ != name);
        assert forall|z: int| 0 <= z < j - 1 implies (#[trigger] servers.drop_first()[z]).name@
            != name by {
            assert(servers.drop_first()[z] == servers[z + 1]);
        }
        assert(servers.drop_first()[j - 1] == servers[j]);
        lemma_server_lookup_at(servers.drop_first(), name, j - 1);
    }
}

proof fn lemma_server_lookup_none(servers: Seq<McpServerInfo>, name: Seq<char>)
    requires
        forall|z: int| 0 <= z < servers.len() ==> (#[trigger] servers[z]).name@ != name,
    ensures
        spec_server_lookup(servers, name) is None,
    decreases servers.len(),
{
    if servers.len() > 0 {
        assert forall|z: int| 0 <= z < servers.drop_first().len() implies (
        #[trigger] servers.drop_first()[z]).name@ != name by {
            assert(servers.drop_first()[z] == servers[z + 1]);
        }
        lemma_server_lookup_none(servers.drop_first(), name);
    }
}

pub open spec fn spec_has_tool(tools: Seq<crate::mcp::McpToolInfo>, name: Seq<char>) -> bool {
    exists|i: int| 0 <= i < tools.len() && tools[i].name@ == name
}

/// The JSON-RPC id of a message, null when absent.
pub open spec fn spec_rpc_id(msg: JsonV) -> JsonV {
    match spec_get(msg, "id"@) {
        Some(v) => v,
        None => JsonV::Null,
    }
}

impl Query {
    /// Decides how one control request is serviced, without blocking the
    /// read loop: a permission check, a hook invocation, an immediate
    /// reply, an in-process tool call, or an error response. A failure
    /// here is local to the one request; the session stays healthy.
    pub fn dispatch_control_request(&self, request: Option<&JsonValue>) -> (r: DispatchStep)
        ensures
            match request {
                None => r matches DispatchStep::Fail(m) && m@
                    == "Control request missing 'request' field"@,
                Some(req) => {
                    &&& !(req@ is Obj) ==> (r matches DispatchStep::Fail(m) && m@
                        == "Control request missing 'request' field"@)
                    &&& req@ is Obj ==> match get_str(req@, "subtype"@) {
                        None => r matches DispatchStep::Fail(m) && m@
                            == "control request missing subtype"@,
                        Some(st) => {
                            &&& (st == "can_use_tool"@ && !self.can_use_tool) ==> (r matches
                                DispatchStep::Fail(m) && m@
                                == "canUseTool callback is not provided"@)
                            &&& (st == "can_use_tool"@ && self.can_use_tool) ==> match r {
                                DispatchStep::PermissionCheck { tool_name, input, suggestions } => {
                                    &&& get_str(req@, "tool_name"@) == Some(tool_name@)
                                    &&& spec_get(req@, "input"@) == Some(input@)
                                    &&& input@ is Obj
                                },
                                DispatchStep::Fail(m) => get_str(req@, "tool_name"@) is None
                                    || !(spec_get(req@, "input"@) matches Some(iv) && iv
                                    is Obj),
                                _ => false,
                            }
                            &&& st == "hook_callback"@ ==> match r {
                                DispatchStep::HookInvoke { callback_id, input, tool_use_id } => {
                                    &&& get_str(req@, "callback_id"@) == Some(callback_id@)
                                    &&& contains_id(
                                        ids_of(self.hook_callback_ids@),
                                        callback_id@,
                                    )
                                    &&& match spec_get(req@, "input"@) {
                                        Some(iv) => crate::hooks::hook_input_of(iv, input),
                                        None => crate::hooks::hook_input_of(
                                            JsonV::Obj(Seq::empty()),
                                            input,
                                        ),
                                    }
                                    &&& crate::message_parser::opt_str_matches(
                                        tool_use_id,
                                        get_str(req@, "tool_use_id"@),
                                    )
                                },
                                DispatchStep::Fail(m) => true,
                                _ => false,
                            }
                            &&& st == "mcp_message"@ ==> mcp_dispatch_ok(
                                self.sdk_servers@,
                                req@,
                                r,
                            )
                            &&& !(st == "can_use_tool"@ || st == "hook_callback"@ || st
                                == "mcp_message"@) ==> (r matches DispatchStep::Fail(m) && m@
                                == "unsupported control request subtype: "@ + st)
                        },
                    }
                },
            },
    {
        proof {
            reveal_strlit("can_use_tool");
            reveal_strlit("hook_callback");
            reveal_strlit("mcp_message");
            assert("can_use_tool"@.len() == 12 && "hook_callback"@.len() == 13
                && "mcp_message"@.len() == 11);
        }
        let req = match request {
            Some(req) => req,
            None => {
                return DispatchStep::Fail(
                    String::from_str("Control request missing 'request' field"),
                );
            },
        };
        if !req.is_object() {
            return DispatchStep::Fail(
                String::from_str("Control request missing 'request' field"),
            );
        }
        let subtype = match req.get("subtype") {
            Some(v) => match v.as_str() {
                Some(s) => s.clone(),
                None => {
                    return DispatchStep::Fail(
                        String::from_str("control request missing subtype"),
                    );
                },
            },
            None => {
                return DispatchStep::Fail(
                    String::from_str("control request missing subtype"),
                );
            },
        };
        if str_eq(subtype.as_str(), "can_use_tool") {
            if !self.can_use_tool {
                return DispatchStep::Fail(
                    String::from_str("canUseTool callback is not provided"),
                );
            }
            let tool_name = match req.get("tool_name") {
                Some(v) => match v.as_str() {
                    Some(s) => s.clone(),
                    None => {
                        return DispatchStep::Fail(
                            String::from_str("permission request missing tool_name"),
                        );
                    },
                },
                None => {
                    return DispatchStep::Fail(
                        String::from_str("permission request missing tool_name"),
                    );
                },
            };
            let input = match req.get("input") {
                Some(v) => {
                    if v.is_object() {
                        v.deep_clone()
                    } else {
                        return DispatchStep::Fail(
                            String::from_str("permission request missing input"),
                        );
                    }
                },
                None => {
                    return DispatchStep::Fail(
                        String::from_str("permission request missing input"),
                    );
                },
            };
            let suggestions = match req.get("permission_suggestions") {
                Some(v) => match v.as_array() {
                    Some(items) => crate::permission::parse_permission_suggestions(items),
                    None => Vec::new(),
                },
                None => Vec::new(),
            };
            DispatchStep::PermissionCheck { tool_name, input, suggestions }
        } else if str_eq(subtype.as_str(), "hook_callback") {
            let callback_id = match req.get("callback_id") {
                Some(v) => match v.as_str() {
                    Some(s) => s.clone(),
                    None => {
                        return DispatchStep::Fail(
                            String::from_str("hook callback missing callback_id"),
                        );
                    },
                },
                None => {
                    return DispatchStep::Fail(
                        String::from_str("hook callback missing callback_id"),
                    );
                },
            };
            let mut known = false;
            let mut k: usize = 0;
            let n = self.hook_callback_ids.len();
            while k < n
                invariant
                    k <= n,
                    n == self.hook_callback_ids@.len(),
                    known <==> exists|z: int|
                        0 <= z < k && ids_of(self.hook_callback_ids@)[z] == callback_id@,
                decreases n - k,
            {
                if str_eq(self.hook_callback_ids[k].as_str(), callback_id.as_str()) {
                    known = true;
                    proof {
                        assert(ids_of(self.hook_callback_ids@)[k as int] == callback_id@);
                    }
                }
                k = k + 1;
            }
            if !known {
                proof {
                    assert(!contains_id(ids_of(self.hook_callback_ids@), callback_id@)) by {
                        if contains_id(ids_of(self.hook_callback_ids@), callback_id@) {
                            let z = choose|z: int|
                                0 <= z < ids_of(self.hook_callback_ids@).len() && ids_of(
                                    self.hook_callback_ids@,
                                )[z] == callback_id@;
                            assert(ids_of(self.hook_callback_ids@)[z] == callback_id@);
                        }
                    }
                }
                let mut msg = String::from_str("No hook callback found for ID: ");
                msg.append(callback_id.as_str());
                return DispatchStep::Fail(msg);
            }
            let parsed = match req.get("input") {
                Some(iv) => crate::hooks::hook_input_from_json(iv),
                None => crate::hooks::hook_input_from_json(&JsonValue::Obj(Vec::new())),
            };
            let input = match parsed {
                Ok(h) => h,
                Err(e) => {
                    return DispatchStep::Fail(e.message());
                },
            };
            let tool_use_id = match req.get("tool_use_id") {
                Some(v) => match v.as_str() {
                    Some(s) => Some(s.clone()),
                    None => None,
                },
                None => None,
            };
            proof {
                crate::json::lemma_obj_fields_view(Seq::<(String, JsonValue)>::empty());
                assert(crate::json::obj_fields_view(Seq::<(String, JsonValue)>::empty()) =~= Seq::<
                    (Seq<char>, JsonV),
                >::empty());
            }
            DispatchStep::HookInvoke { callback_id, input, tool_use_id }
        } else if str_eq(subtype.as_str(), "mcp_message") {
            self.dispatch_mcp_message(req)
        } else {
            let mut msg = String::from_str("unsupported control request subtype: ");
            msg.append(subtype.as_str());
            DispatchStep::Fail(msg)
        }
    }
}

/// How an in-process server message must be serviced, given the registered
/// server catalog. In particular, `tools/call` for an unregistered tool
/// name yields a JSON-RPC error object with code -32603, and never
/// anything session-fatal.
pub open spec fn mcp_dispatch_ok(
    servers: Seq<McpServerInfo>,
    req: JsonV,
    r: DispatchStep,
) -> bool {
    match get_str(req, "server_name"@) {
        None => r matches DispatchStep::Fail(m) && m@ == "MCP request missing server_name"@,
        Some(server_name) => match spec_get(req, "message"@) {
            None => r matches DispatchStep::Fail(m) && m@
                == "MCP request missing message payload"@,
            Some(msg) => if !(msg is Obj) {
                r matches DispatchStep::Fail(m) && m@ == "MCP message must be an object"@
            } else {
                match spec_server_lookup(servers, server_name) {
                    None => r matches DispatchStep::Fail(m) && m@ == "Server '"@ + server_name
                        + "' not found"@,
                    Some(si) => match get_str(msg, "method"@) {
                        None => r matches DispatchStep::Fail(m) && m@
                            == "MCP message missing method"@,
                        Some(method) => {
                            &&& method == "initialize"@ ==> (r matches DispatchStep::McpReply(
                                p,
                            ) && p@ == crate::mcp::spec_jsonrpc_result(
                                spec_rpc_id(msg),
                                crate::mcp::spec_initialize_result(
                                    servers[si].name@,
                                    servers[si].version@,
                                ),
                            ))
                            &&& method == "tools/list"@ ==> (r matches DispatchStep::McpReply(
                                p,
                            ) && p@ == crate::mcp::spec_jsonrpc_result(
                                spec_rpc_id(msg),
                                JsonV::Obj(
                                    seq![
                                        (
                                            "tools"@,
                                            JsonV::Arr(
                                                servers[si].tools@.map_values(
                                                    |ti: crate::mcp::McpToolInfo|
                                                        crate::mcp::spec_tool_entry(ti),
                                                ),
                                            ),
                                        ),
                                    ],
                                ),
                            ))
                            &&& method == "tools/call"@ ==> mcp_call_ok(
                                servers[si].tools@,
                                msg,
                                server_name,
                                r,
                            )
                            &&& method == "notifications/initialized"@ ==> (r matches
                                DispatchStep::McpReply(p) && p@ == JsonV::Obj(
                                seq![
                                    ("jsonrpc"@, JsonV::Str("2.0"@)),
                                    ("result"@, JsonV::Obj(Seq::empty())),
                                ],
                            ))
                            &&& !(method == "initialize"@ || method == "tools/list"@ || method
                                == "tools/call"@ || method == "notifications/initialized"@)
                                ==> (r matches DispatchStep::McpReply(p) && p@
                                == crate::mcp::spec_jsonrpc_error(
                                spec_rpc_id(msg),
                                -32601,
                                "Method '"@ + method + "' not found"@,
                            ))
                        },
                    },
                }
            },
        },
    }
}

/// How a `tools/call` message must be serviced against one server's tools.
pub open spec fn mcp_call_ok(
    tools: Seq<crate::mcp::McpToolInfo>,
    msg: JsonV,
    server_name: Seq<char>,
    r: DispatchStep,
) -> bool {
    let params = match spec_get(msg, "params"@) {
        Some(p) => if p is Obj {
            p
        } else {
            JsonV::Obj(Seq::empty())
        },
        None => JsonV::Obj(Seq::empty()),
    };
    match get_str(params, "name"@) {
        None => r matches DispatchStep::Fail(m) && m@ == "tools/call missing name parameter"@,
        Some(tool_name) => if !spec_has_tool(tools, tool_name) {
            r matches DispatchStep::McpReply(p) && p@ == crate::mcp::spec_jsonrpc_error(
                spec_rpc_id(msg),
                -32603,
                "Tool '"@ + tool_name + "' not found"@,
            )
        } else {
            r matches DispatchStep::McpToolCall { server, tool, rpc_id, arguments } && {
                &&& server@ == server_name
                &&& tool@ == tool_name
                &&& rpc_id@ == spec_rpc_id(msg)
                &&& arguments@ == (match spec_get(params, "arguments"@) {
                    Some(a) => if a is Obj {
                        a
                    } else {
                        JsonV::Obj(Seq::empty())
                    },
                    None => JsonV::Obj(Seq::empty()),
                })
            }
        },
    }
}

impl Query {
    /// Services one in-process server message against the registered
    /// catalog.
    fn dispatch_mcp_message(&self, req: &JsonValue) -> (r: DispatchStep)
        ensures
            mcp_dispatch_ok(self.sdk_servers@, req@, r),
    {
        proof {
            reveal_strlit("initialize");
            reveal_strlit("tools/list");
            reveal_strlit("tools/call");
            reveal_strlit("notifications/initialized");
            assert("initialize"@.len() == 10 && "tools/list"@.len() == 10 && "tools/call"@.len()
                == 10 && "notifications/initialized"@.len() == 25);
            assert("initialize"@[0] == 'i' && "tools/list"@[0] == 't' && "tools/call"@[0]
                == 't');
            assert("tools/list"@[6] == 'l' && "tools/call"@[6] == 'c');
            assert("initialize"@ != "tools/list"@ && "initialize"@ != "tools/call"@
                && "tools/list"@ != "tools/call"@);
        }
        let server_name = match req.get("server_name") {
            Some(v) => match v.as_str() {
                Some(s) => s.clone(),
                None => {
                    return DispatchStep::Fail(
                        String::from_str("MCP request missing server_name"),
                    );
                },
            },
            None => {
                return DispatchStep::Fail(
                    String::from_str("MCP request missing server_name"),
                );
            },
        };
        let msg = match req.get("message") {
            Some(v) => v,
            None => {
                return DispatchStep::Fail(
                    String::from_str("MCP request missing message payload"),
                );
            },
        };
        if !msg.is_object() {
            return DispatchStep::Fail(String::from_str("MCP message must be an object"));
        }
        let mut server_idx: usize = 0;
        let mut found = false;
        let n = self.sdk_servers.len();
        let mut k: usize = 0;
        while k < n
            invariant
                k <= n,
                n == self.sdk_servers@.len(),
                !found ==> forall|z: int|
                    0 <= z < k ==> (#[trigger] self.sdk_servers@[z]).name@ != server_name@,
                found ==> server_idx < k && self.sdk_servers@[server_idx as int].name@
                    == server_name@ && (forall|z: int|
                    0 <= z < server_idx ==> (#[trigger] self.sdk_servers@[z]).name@
                        != server_name@),
            decreases n - k,
        {
            if !found && str_eq(self.sdk_servers[k].name.as_str(), server_name.as_str()) {
                found = true;
                server_idx = k;
            }
            k = k + 1;
        }
        if !found {
            let mut m = String::from_str("Server '");
            m.append(server_name.as_str());
            m.append("' not found");
            proof {
                reveal_strlit("Server '");
                reveal_strlit("' not found");
                lemma_server_lookup_none(self.sdk_servers@, server_name@);
                assert(m@ =~= "Server '"@ + server_name@ + "' not found"@);
            }
            return DispatchStep::Fail(m);
        }
        proof {
            lemma_server_lookup_at(self.sdk_servers@, server_name@, server_idx as int);
        }
        let server = &self.sdk_servers[server_idx];
        let ghost si = server_idx as int;
        let method = match msg.get("method") {
            Some(v) => match v.as_str() {
                Some(s) => s.clone(),
                None => {
                    return DispatchStep::Fail(String::from_str("MCP message missing method"));
                },
            },
            None => {
                return DispatchStep::Fail(String::from_str("MCP message missing method"));
            },
        };
        let rpc_id = match msg.get("id") {
            Some(v) => v.deep_clone(),
            None => JsonValue::Null,
        };
        if str_eq(method.as_str(), "initialize") {
            let reply = crate::mcp::build_mcp_initialize_response(
                rpc_id,
                server.name.as_str(),
                server.version.as_str(),
            );
            DispatchStep::McpReply(reply)
        } else if str_eq(method.as_str(), "tools/list") {
            let entries = crate::mcp::convert_mcp_tool_list(&server.tools);
            let mut result_fields: Vec<(String, JsonValue)> = Vec::new();
            result_fields.push((String::from_str("tools"), JsonValue::Arr(entries)));
            let ghost rfv = result_fields@;
            let result_obj = JsonValue::Obj(result_fields);
            proof {
                lemma_fields_pointwise(rfv);
                crate::json::lemma_arr_view(rfv[0].1->Arr_0@);
            }
            let reply = crate::mcp::jsonrpc_result(rpc_id, result_obj);
            proof {
                let entriesv = rfv[0].1->Arr_0@;
                assert forall|z: int| 0 <= z < entriesv.len() implies crate::json::arr_view(
                    entriesv,
                )[z] == server.tools@.map_values(
                    |ti: crate::mcp::McpToolInfo| crate::mcp::spec_tool_entry(ti),
                )[z] by {
                    assert(crate::json::arr_view(entriesv)[z] == (#[trigger] entriesv[z])@);
                }
                assert(crate::json::arr_view(entriesv) =~~= server.tools@.map_values(
                    |ti: crate::mcp::McpToolInfo| crate::mcp::spec_tool_entry(ti),
                ));
                assert(crate::json::obj_fields_view(rfv) =~~= seq![
                    (
                        "tools"@,
                        JsonV::Arr(
                            server.tools@.map_values(
                                |ti: crate::mcp::McpToolInfo| crate::mcp::spec_tool_entry(ti),
                            ),
                        ),
                    ),
                ]);
            }
            DispatchStep::McpReply(reply)
        } else if str_eq(method.as_str(), "tools/call") {
            let empty_params = JsonValue::Obj(Vec::new());
            let params: &JsonValue = match msg.get("params") {
                Some(p) => {
                    if p.is_object() {
                        p
                    } else {
                        &empty_params
                    }
                },
                None => &empty_params,
            };
            proof {
                crate::json::lemma_obj_fields_view(Seq::<(String, JsonValue)>::empty());
                assert(crate::json::obj_fields_view(Seq::<(String, JsonValue)>::empty()) =~= Seq::<
                    (Seq<char>, JsonV),
                >::empty());
            }
            let tool_name = match params.get("name") {
                Some(v) => match v.as_str() {
                    Some(s) => s.clone(),
                    None => {
                        return DispatchStep::Fail(
                            String::from_str("tools/call missing name parameter"),
                        );
                    },
                },
                None => {
                    return DispatchStep::Fail(
                        String::from_str("tools/call missing name parameter"),
                    );
                },
            };
            let mut has_tool = false;
            let tn = server.tools.len();
            let mut z: usize = 0;
            while z < tn
                invariant
                    z <= tn,
                    tn == server.tools@.len(),
                    has_tool <==> exists|y: int|
                        0 <= y < z && (#[trigger] server.tools@[y]).name@ == tool_name@,
                decreases tn - z,
            {
                if str_eq(server.tools[z].name.as_str(), tool_name.as_str()) {
                    has_tool = true;
                    proof {
                        assert(server.tools@[z as int].name@ == tool_name@);
                    }
                }
                z = z + 1;
            }
            if !has_tool {
                let mut m = String::from_str("Tool '");
                m.append(tool_name.as_str());
                m.append("' not found");
                proof {
                    reveal_strlit("Tool '");
                    reveal_strlit("' not found");
                    assert(m@ =~= "Tool '"@ + tool_name@ + "' not found"@);
                    assert(!spec_has_tool(server.tools@, tool_name@));
                }
                let reply = crate::mcp::jsonrpc_error(rpc_id, -32603, m);
                return DispatchStep::McpReply(reply);
            }
            let arguments = match params.get("arguments") {
                Some(a) => {
                    if a.is_object() {
                        a.deep_clone()
                    } else {
                        JsonValue::Obj(Vec::new())
                    }
                },
                None => JsonValue::Obj(Vec::new()),
            };
            DispatchStep::McpToolCall {
                server: server_name,
                tool: tool_name,
                rpc_id,
                arguments,
            }
        } else if str_eq(method.as_str(), "notifications/initialized") {
            let mut fields: Vec<(String, JsonValue)> = Vec::new();
            fields.push(
                (String::from_str("jsonrpc"), JsonValue::Str(String::from_str("2.0"))),
            );
            fields.push((String::from_str("result"), JsonValue::Obj(Vec::new())));
            let ghost fv = fields@;
            let reply = JsonValue::Obj(fields);
            proof {
                lemma_fields_pointwise(fv);
                crate::json::lemma_obj_fields_view(Seq::<(String, JsonValue)>::empty());
                assert(crate::json::obj_fields_view(Seq::<(String, JsonValue)>::empty()) =~= Seq::<
                    (Seq<char>, JsonV),
                >::empty());
                assert(crate::json::obj_fields_view(fv) =~~= seq![
                    ("jsonrpc"@, JsonV::Str("2.0"@)),
                    ("result"@, JsonV::Obj(Seq::<(Seq<char>, JsonV)>::empty())),
                ]);
            }
            DispatchStep::McpReply(reply)
        } else {
            let mut m = String::from_str("Method '");
            m.append(method.as_str());
            m.append("' not found");
            proof {
                reveal_strlit("Method '");
                reveal_strlit("' not found");
                assert(m@ =~= "Method '"@ + method@ + "' not found"@);
            }
            let reply = crate::mcp::jsonrpc_error(rpc_id, -32601, m);
            DispatchStep::McpReply(reply)
        }
    }
}

/// The ids minted for `count` consecutive callback slots starting at
/// `start`.
pub open spec fn hook_id_views(start: int, count: int) -> Seq<Seq<char>>
    decreases count,
{
    if count <= 0 {
        Seq::empty()
    } else {
        seq![spec_hook_id(start)] + hook_id_views(start + 1, count - 1)
    }
}

/// Pointwise reading of [`hook_id_views`].
pub proof fn lemma_hook_id_views(start: int, count: int)
    ensures
        hook_id_views(start, count).len() == (if count <= 0 {
            0int
        } else {
            count
        }),
        forall|i: int|
            0 <= i < count ==> #[trigger] hook_id_views(start, count)[i] == spec_hook_id(
                start + i,
            ),
    decreases count,
{
    if count > 0 {
        lemma_hook_id_views(start + 1, count - 1);
        assert forall|i: int| 0 <= i < count implies #[trigger] hook_id_views(start, count)[i]
            == spec_hook_id(start + i) by {
            if i > 0 {
                assert(hook_id_views(start, count)[i] == hook_id_views(start + 1, count - 1)[i
                    - 1]);
            }
        }
    }
}

/// Freshly minted callback ids are pairwise distinct: registering a number
/// of hook callbacks yields as many distinct ids.
pub proof fn lemma_hook_id_views_distinct(start: int, count: int)
    requires
        start >= 0,
    ensures
        distinct_ids(hook_id_views(start, count)),
{
    lemma_hook_id_views(start, count);
    assert forall|i: int, j: int|
        0 <= i < j < hook_id_views(start, count).len() implies hook_id_views(start, count)[i]
        != hook_id_views(start, count)[j] by {
        lemma_hook_id_injective(start + i, start + j);
    }
}

/// Total number of callback slots in a matcher list.
pub open spec fn sum_matcher_counts(ms: Seq<crate::hooks::HookMatcher>) -> int
    decreases ms.len(),
{
    if ms.len() == 0 {
        0
    } else {
        ms.first().hook_count + sum_matcher_counts(ms.drop_first())
    }
}

/// Total number of callback slots in a hook table.
pub open spec fn sum_event_counts(
    evs: Seq<(crate::hooks::HookEvent, Vec<crate::hooks::HookMatcher>)>,
) -> int
    decreases evs.len(),
{
    if evs.len() == 0 {
        0
    } else {
        sum_matcher_counts(evs.first().1@) + sum_event_counts(evs.drop_first())
    }
}

proof fn lemma_sum_matcher_counts_nonneg(ms: Seq<crate::hooks::HookMatcher>)
    ensures
        sum_matcher_counts(ms) >= 0,
    decreases ms.len(),
{
    if ms.len() > 0 {
        lemma_sum_matcher_counts_nonneg(ms.drop_first());
    }
}

proof fn lemma_sum_event_counts_nonneg(
    evs: Seq<(crate::hooks::HookEvent, Vec<crate::hooks::HookMatcher>)>,
)
    ensures
        sum_event_counts(evs) >= 0,
    decreases evs.len(),
{
    if evs.len() > 0 {
        lemma_sum_matcher_counts_nonneg(evs.first().1@);
        lemma_sum_event_counts_nonneg(evs.drop_first());
    }
}

/// One matcher's wire entry: its matcher value, when given, and the minted
/// callback ids.
pub open spec fn spec_matcher_entry(m: crate::hooks::HookMatcher, start: int) -> JsonV {
    let ids = ("hookCallbackIds"@, JsonV::Arr(
        hook_id_views(start, m.hook_count as int).map_values(|s: Seq<char>| JsonV::Str(s)),
    ));
    match m.matcher {
        Some(mv) => JsonV::Obj(seq![("matcher"@, mv@), ids]),
        None => JsonV::Obj(seq![ids]),
    }
}

/// The wire entries of a matcher list from a given id counter, with the
/// counter after all its slots; matchers without callbacks are omitted.
pub open spec fn spec_matcher_entries(ms: Seq<crate::hooks::HookMatcher>, start: int) -> (
    Seq<JsonV>,
    int,
)
    decreases ms.len(),
{
    if ms.len() == 0 {
        (Seq::empty(), start)
    } else if ms.first().hook_count == 0 {
        spec_matcher_entries(ms.drop_first(), start)
    } else {
        let rest = spec_matcher_entries(
            ms.drop_first(),
            start + ms.first().hook_count,
        );
        (seq![spec_matcher_entry(ms.first(), start)] + rest.0, rest.1)
    }
}

/// The wire fields of a hook table from a given id counter; events left
/// with no entries are omitted.
pub open spec fn spec_event_fields(
    evs: Seq<(crate::hooks::HookEvent, Vec<crate::hooks::HookMatcher>)>,
    start: int,
) -> (Seq<(Seq<char>, JsonV)>, int)
    decreases evs.len(),
{
    if evs.len() == 0 {
        (Seq::empty(), start)
    } else {
        let head = spec_matcher_entries(evs.first().1@, start);
        let rest = spec_event_fields(evs.drop_first(), head.1);
        if head.0.len() == 0 {
            rest
        } else {
            (seq![(evs.first().0.spec_str(), JsonV::Arr(head.0))] + rest.0, rest.1)
        }
    }
}

proof fn lemma_matcher_entries_next(ms: Seq<crate::hooks::HookMatcher>, start: int)
    ensures
        spec_matcher_entries(ms, start).1 == start + sum_matcher_counts(ms),
    decreases ms.len(),
{
    if ms.len() > 0 {
        if ms.first().hook_count == 0 {
            lemma_matcher_entries_next(ms.drop_first(), start);
        } else {
            lemma_matcher_entries_next(ms.drop_first(), start + ms.first().hook_count);
        }
    }
}

proof fn lemma_event_fields_next(
    evs: Seq<(crate::hooks::HookEvent, Vec<crate::hooks::HookMatcher>)>,
    start: int,
)
    ensures
        spec_event_fields(evs, start).1 == start + sum_event_counts(evs),
    decreases evs.len(),
{
    if evs.len() > 0 {
        lemma_matcher_entries_next(evs.first().1@, start);
        lemma_event_fields_next(evs.drop_first(), spec_matcher_entries(evs.first().1@, start).1);
    }
}

/// The id string for one callback counter value.
fn hook_id_string(n: u64) -> (r: String)
    ensures
        r@ == spec_hook_id(n as int),
{
    let mut s = String::from_str("hook_");
    let digits = crate::text::u64_to_string(n);
    s.append(digits.as_str());
    proof {
        reveal_strlit("hook_");
    }
    s
}

fn build_matcher_entries(
    ms: &Vec<crate::hooks::HookMatcher>,
    i: usize,
    next_id: u64,
) -> (r: (Vec<JsonValue>, u64))
    requires
        i <= ms@.len(),
        next_id + sum_matcher_counts(ms@.skip(i as int)) <= 0xffff_ffff_ffff_ffff,
    ensures
        crate::json::arr_view(r.0@) == spec_matcher_entries(ms@.skip(i as int), next_id as int).0,
        r.1 as int == spec_matcher_entries(ms@.skip(i as int), next_id as int).1,
    decreases ms@.len() - i,
{
    proof {
        lemma_sum_matcher_counts_nonneg(ms@.skip(i as int));
    }
    if i == ms.len() {
        let out: Vec<JsonValue> = Vec::new();
        proof {
            assert(ms@.skip(i as int) =~= Seq::<crate::hooks::HookMatcher>::empty());
            crate::json::lemma_arr_view(out@);
            assert(crate::json::arr_view(out@) =~= Seq::<JsonV>::empty());
        }
        return (out, next_id);
    }
    let ghost tail = ms@.skip(i as int);
    proof {
        assert(tail.first() == ms@[i as int]);
        assert(tail.drop_first() =~= ms@.skip(i + 1));
        lemma_sum_matcher_counts_nonneg(ms@.skip(i + 1));
    }
    let m = &ms[i];
    if m.hook_count == 0 {
        return build_matcher_entries(ms, i + 1, next_id);
    }
    let count = m.hook_count;
    // Mint one id value per callback slot of this matcher.
    let mut ids: Vec<JsonValue> = Vec::new();
    let mut k: usize = 0;
    proof {
        lemma_hook_id_views(next_id as int, count as int);
    }
    while k < count
        invariant
            k <= count,
            next_id + count <= 0xffff_ffff_ffff_ffff,
            ids@.len() == k,
            forall|q: int|
                0 <= q < k ==> (#[trigger] ids@[q])@ == JsonV::Str(
                    spec_hook_id(next_id + q),
                ),
        decreases count - k,
    {
        ids.push(JsonValue::Num(String::new()));
        let id = hook_id_string(next_id + k as u64);
        let last = ids.len() - 1;
        ids.set(last, JsonValue::Str(id));
        k = k + 1;
    }
    let mut entry_fields: Vec<(String, JsonValue)> = Vec::new();
    if let Some(mv) = &m.matcher {
        entry_fields.push((String::from_str("matcher"), mv.deep_clone()));
    }
    entry_fields.push((String::from_str("hookCallbackIds"), JsonValue::Arr(ids)));
    let ghost efv = entry_fields@;
    let entry = JsonValue::Obj(entry_fields);
    proof {
        lemma_fields_pointwise(efv);
        let idseq = hook_id_views(next_id as int, count as int);
        lemma_hook_id_views(next_id as int, count as int);
        let idarr = efv.last().1->Arr_0@;
        crate::json::lemma_arr_view(idarr);
        assert forall|q: int| 0 <= q < idarr.len() implies crate::json::arr_view(idarr)[q]
            == idseq.map_values(|s: Seq<char>| JsonV::Str(s))[q] by {
            assert(crate::json::arr_view(idarr)[q] == (#[trigger] idarr[q])@);
            assert(idseq.map_values(|s: Seq<char>| JsonV::Str(s))[q] == JsonV::Str(idseq[q]));
        }
        assert(crate::json::arr_view(idarr) =~~= idseq.map_values(
            |s: Seq<char>| JsonV::Str(s),
        ));
        assert(crate::json::obj_fields_view(efv) =~~= spec_matcher_entry(
            ms@[i as int],
            next_id as int,
        )->Obj_0);
        assert(entry@ == spec_matcher_entry(ms@[i as int], next_id as int));
    }
    let (rest, final_id) = build_matcher_entries(ms, i + 1, next_id + count as u64);
    let ghost restv = rest@;
    let mut out: Vec<JsonValue> = Vec::new();
    out.push(entry);
    let mut rest = rest;
    out.append(&mut rest);
    proof {
        crate::json::lemma_arr_view(out@);
        crate::json::lemma_arr_view(restv);
        let want = spec_matcher_entries(tail, next_id as int);
        assert(want.0 == seq![spec_matcher_entry(tail.first(), next_id as int)]
            + spec_matcher_entries(tail.drop_first(), next_id + tail.first().hook_count).0);
        assert forall|q: int| 0 <= q < out@.len() implies crate::json::arr_view(out@)[q]
            == want.0[q] by {
            assert(crate::json::arr_view(out@)[q] == (#[trigger] out@[q])@);
            if q > 0 {
                assert(out@[q] == restv[q - 1]);
                assert(crate::json::arr_view(restv)[q - 1] == restv[q - 1]@);
            }
        }
        assert(crate::json::arr_view(out@) =~~= want.0);
    }
    (out, final_id)
}

fn build_event_fields(
    evs: &Vec<(crate::hooks::HookEvent, Vec<crate::hooks::HookMatcher>)>,
    i: usize,
    next_id: u64,
) -> (r: (Vec<(String, JsonValue)>, u64))
    requires
        i <= evs@.len(),
        next_id + sum_event_counts(evs@.skip(i as int)) <= 0xffff_ffff_ffff_ffff,
    ensures
        obj_fields_view(r.0@) == spec_event_fields(evs@.skip(i as int), next_id as int).0,
        r.1 as int == spec_event_fields(evs@.skip(i as int), next_id as int).1,
    decreases evs@.len() - i,
{
    proof {
        lemma_sum_event_counts_nonneg(evs@.skip(i as int));
    }
    if i == evs.len() {
        let out: Vec<(String, JsonValue)> = Vec::new();
        proof {
            assert(evs@.skip(i as int) =~= Seq::<
                (crate::hooks::HookEvent, Vec<crate::hooks::HookMatcher>),
            >::empty());
            crate::json::lemma_obj_fields_view(out@);
            assert(obj_fields_view(out@) =~= Seq::<(Seq<char>, JsonV)>::empty());
        }
        return (out, next_id);
    }
    let ghost tail = evs@.skip(i as int);
    proof {
        assert(tail.first() == evs@[i as int]);
        assert(tail.drop_first() =~= evs@.skip(i + 1));
        lemma_sum_matcher_counts_nonneg(evs@[i as int].1@);
        lemma_sum_event_counts_nonneg(evs@.skip(i + 1));
    }
    let ev = &evs[i];
    proof {
        assert(ev.1@.skip(0) =~= ev.1@);
    }
    let (entries, mid_id) = build_matcher_entries(&ev.1, 0, next_id);
    proof {
        lemma_matcher_entries_next(ev.1@, next_id as int);
    }
    let (rest, final_id) = build_event_fields(evs, i + 1, mid_id);
    if entries.len() == 0 {
        proof {
            assert(crate::json::arr_view(entries@).len() == entries@.len()) by {
                crate::json::lemma_arr_view(entries@);
            }
        }
        return (rest, final_id);
    }
    let ghost restv = rest@;
    let mut out: Vec<(String, JsonValue)> = Vec::new();
    let ghost entriesv = entries@;
    out.push((String::from_str(ev.0.as_str()), JsonValue::Arr(entries)));
    let mut rest = rest;
    out.append(&mut rest);
    proof {
        crate::json::lemma_obj_fields_view(out@);
        crate::json::lemma_obj_fields_view(restv);
        crate::json::lemma_arr_view(entriesv);
        assert(crate::json::arr_view(entriesv).len() == entriesv.len());
        let want = spec_event_fields(tail, next_id as int);
        assert forall|q: int| 0 <= q < out@.len() implies obj_fields_view(out@)[q]
            == want.0[q] by {
            assert(obj_fields_view(out@)[q] == ((#[trigger] out@[q]).0@, out@[q].1@));
            if q > 0 {
                assert(out@[q] == restv[q - 1]);
                assert(obj_fields_view(restv)[q - 1] == (restv[q - 1].0@, restv[q - 1].1@));
            }
        }
        assert(obj_fields_view(out@) =~~= want.0);
    }
    (out, final_id)
}

impl Query {
    /// Consumes the hook table, minting one fresh opaque id per callback
    /// slot, recording every minted id in the callback table, and building
    /// the wire structure sent with `initialize`. Yields nothing when no
    /// matcher carries a callback.
    pub fn prepare_hooks_configuration(&mut self) -> (r: Option<JsonValue>)
        requires
            old(self).wf(),
            old(self).next_callback_id + (match old(self).hooks {
                Some(h) => sum_event_counts(h@),
                None => 0int,
            }) <= 0xffff_ffff_ffff_ffff,
        ensures
            final(self).wf(),
            final(self).hooks is None,
            match old(self).hooks {
                None => r is None && final(self).hook_callback_ids == old(
                    self,
                ).hook_callback_ids && final(self).next_callback_id == old(
                    self,
                ).next_callback_id,
                Some(h) => {
                    &&& final(self).next_callback_id as int == spec_event_fields(
                        h@,
                        old(self).next_callback_id as int,
                    ).1
                    &&& ids_of(final(self).hook_callback_ids@) == ids_of(
                        old(self).hook_callback_ids@,
                    ) + hook_id_views(
                        old(self).next_callback_id as int,
                        final(self).next_callback_id - old(self).next_callback_id,
                    )
                    &&& (match r {
                        Some(cfg) => cfg@ == JsonV::Obj(
                            spec_event_fields(h@, old(self).next_callback_id as int).0,
                        ) && spec_event_fields(h@, old(self).next_callback_id as int).0.len()
                            > 0,
                        None => spec_event_fields(
                            h@,
                            old(self).next_callback_id as int,
                        ).0.len() == 0,
                    })
                },
            },
            final(self).pending == old(self).pending,
            final(self).queue == old(self).queue,
            final(self).history == old(self).history,
            final(self).delivered == old(self).delivered,
            final(self).issued == old(self).issued,
            final(self).suffix == old(self).suffix,
            final(self).request_counter == old(self).request_counter,
            final(self).closed == old(self).closed,
            final(self).failed == old(self).failed,
    {
        let mut taken: Option<Vec<(crate::hooks::HookEvent, Vec<crate::hooks::HookMatcher>)>> =
            None;
        core::mem::swap(&mut taken, &mut self.hooks);
        let evs = match taken {
            Some(evs) => evs,
            None => {
                return None;
            },
        };
        proof {
            assert(evs@.skip(0) =~= evs@);
        }
        let start = self.next_callback_id;
        let (fields, final_id) = build_event_fields(&evs, 0, start);
        proof {
            lemma_event_fields_next(evs@, start as int);
            lemma_sum_event_counts_nonneg(evs@);
        }
        // Record every minted id in the callback table.
        let ghost pre_ids = ids_of(self.hook_callback_ids@);
        let mut n = start;
        proof {
            lemma_hook_id_views(start as int, final_id - start);
        }
        while n < final_id
            invariant
                start <= n <= final_id,
                ids_of(self.hook_callback_ids@) == pre_ids + hook_id_views(
                    start as int,
                    n - start,
                ),
                forall|q: int|
                    0 <= q < (n - start) ==> #[trigger] hook_id_views(
                        start as int,
                        final_id - start,
                    )[q] == spec_hook_id(start + q),
                hook_id_views(start as int, final_id - start).len() == final_id - start,
                *self == (
                    Query {
                        hook_callback_ids: self.hook_callback_ids,
                        hooks: self.hooks,
                        ..*old(self)
                    }
                ),
                self.hooks is None,
            decreases final_id - n,
        {
            let id = hook_id_string(n);
            let ghost idv = id@;
            let ghost tbl_pre = self.hook_callback_ids@;
            self.hook_callback_ids.push(id);
            proof {
                lemma_hook_id_views(start as int, final_id - start);
                lemma_hook_id_views(start as int, n + 1 - start as int);
                lemma_hook_id_views(start as int, n - start as int);
                assert(ids_of(self.hook_callback_ids@) =~= ids_of(tbl_pre).push(idv)) by {
                    assert forall|q: int| 0 <= q < self.hook_callback_ids@.len() implies ids_of(
                        self.hook_callback_ids@,
                    )[q] == ids_of(tbl_pre).push(idv)[q] by {
                        assert(ids_of(self.hook_callback_ids@)[q]
                            == self.hook_callback_ids@[q]@);
                        if q < tbl_pre.len() {
                            assert(self.hook_callback_ids@[q] == tbl_pre[q]);
                            assert(ids_of(tbl_pre)[q] == tbl_pre[q]@);
                        }
                    }
                }
                assert(hook_id_views(start as int, n + 1 - start) =~= hook_id_views(
                    start as int,
                    n - start,
                ).push(spec_hook_id(n as int)));
                assert(ids_of(self.hook_callback_ids@) =~= pre_ids + hook_id_views(
                    start as int,
                    n + 1 - start,
                ));
            }
            n = n + 1;
        }
        self.next_callback_id = final_id;
        if fields.len() == 0 {
            proof {
                crate::json::lemma_obj_fields_view(fields@);
            }
            return None;
        }
        let ghost fv = fields@;
        let cfg = JsonValue::Obj(fields);
        proof {
            crate::json::lemma_obj_fields_view(fv);
        }
        Some(cfg)
    }

    /// P-style reading of the invariant: consumer-observed content order is
    /// the acceptance order of content frames.
    pub proof fn lemma_content_order(&self)
        requires
            self.wf(),
        ensures
            ordered_delivery(self.history@, self.delivered@, queue_msgs(self.queue@)),
    {
    }

    /// Request ids are never reused: all issued ids are pairwise distinct.
    pub proof fn lemma_issued_ids_distinct(&self)
        requires
            self.wf(),
        ensures
            distinct_ids(self.issued@),
    {
        assert forall|i: int, j: int| 0 <= i < j < self.issued@.len() implies self.issued@[i]
            != self.issued@[j] by {
            lemma_request_id_injective(i + 1, j + 1, self.suffix@);
        }
    }
}

/// Checks the permission-related options before anything is spawned: a
/// permission callback demands continuous-input mode and excludes an
/// external permission-prompt tool; when accepted, the prompt tool is
/// pinned to the control stream.
pub fn validate_permission_options(
    has_can_use_tool: bool,
    has_permission_prompt_tool_name: bool,
    is_streaming: bool,
) -> (r: Result<Option<String>, SdkError>)
    ensures
        !has_can_use_tool ==> (r matches Ok(t) && t is None),
        has_can_use_tool && !is_streaming ==> (r matches Err(e) && e.spec_message()
            == "can_use_tool callback requires streaming mode"@),
        has_can_use_tool && is_streaming && has_permission_prompt_tool_name ==> (r matches Err(
            e,
        ) && e.spec_message()
            == "can_use_tool cannot be used with permission_prompt_tool_name"@),
        has_can_use_tool && is_streaming && !has_permission_prompt_tool_name ==> (r matches Ok(
            t,
        ) && t matches Some(s) && s@ == "stdio"@),
{
    if !has_can_use_tool {
        return Ok(None);
    }
    if !is_streaming {
        proof {
            reveal_strlit("can_use_tool callback requires streaming mode");
        }
        return Err(
            SdkError::Message(String::from_str("can_use_tool callback requires streaming mode")),
        );
    }
    if has_permission_prompt_tool_name {
        proof {
            reveal_strlit("can_use_tool cannot be used with permission_prompt_tool_name");
        }
        return Err(
            SdkError::Message(
                String::from_str("can_use_tool cannot be used with permission_prompt_tool_name"),
            ),
        );
    }
    Ok(Some(String::from_str("stdio")))
}

} // verus!
